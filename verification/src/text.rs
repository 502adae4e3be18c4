//! Text primitives over character sequences, each stated by a spec function.
use vstd::prelude::*;

verus! {

/// Appending one character to a `String` extends its characters by that character.
pub assume_specification[ String::push ](s: &mut String, ch: char)
    ensures
        final(s)@ == old(s)@.push(ch),
;

/// Unicode `White_Space`, the set that `char::is_whitespace` tests.
pub open spec fn is_ws(c: char) -> bool {
    ||| c == '\t'
    ||| c == '\n'
    ||| c == '\u{0B}'
    ||| c == '\u{0C}'
    ||| c == '\r'
    ||| c == ' '
    ||| c == '\u{85}'
    ||| c == '\u{A0}'
    ||| c == '\u{1680}'
    ||| ('\u{2000}' <= c && c <= '\u{200A}')
    ||| c == '\u{2028}'
    ||| c == '\u{2029}'
    ||| c == '\u{202F}'
    ||| c == '\u{205F}'
    ||| c == '\u{3000}'
}

pub fn is_ws_exec(c: char) -> (res: bool)
    ensures
        res == is_ws(c),
{
    c == '\t' || c == '\n' || c == '\u{0B}' || c == '\u{0C}' || c == '\r' || c == ' ' || c
        == '\u{85}' || c == '\u{A0}' || c == '\u{1680}' || ('\u{2000}' <= c && c <= '\u{200A}')
        || c == '\u{2028}' || c == '\u{2029}' || c == '\u{202F}' || c == '\u{205F}' || c
        == '\u{3000}'
}

pub open spec fn is_digit(c: char) -> bool {
    '0' <= c && c <= '9'
}

/// Characters as a sequence of sequences, one per element.
pub open spec fn seqs_of(v: Seq<Vec<char>>) -> Seq<Seq<char>> {
    v.map_values(|x: Vec<char>| x@)
}

/// `s` without its leading white space.
pub open spec fn trim_start(s: Seq<char>) -> Seq<char>
    decreases s.len(),
{
    if s.len() > 0 && is_ws(s[0]) {
        trim_start(s.drop_first())
    } else {
        s
    }
}

/// `s` without its trailing white space.
pub open spec fn trim_end(s: Seq<char>) -> Seq<char>
    decreases s.len(),
{
    if s.len() > 0 && is_ws(s.last()) {
        trim_end(s.drop_last())
    } else {
        s
    }
}

/// `s` without leading and trailing white space, as `str::trim` gives it.
pub open spec fn trim(s: Seq<char>) -> Seq<char> {
    trim_end(trim_start(s))
}

/// The pieces of `s` between separators that `sep` accepts, as `str::split` gives them:
/// one more piece than there are separators, empty pieces kept.
pub open spec fn split_where(s: Seq<char>, sep: spec_fn(char) -> bool) -> Seq<Seq<char>>
    decreases s.len(),
{
    if s.len() == 0 {
        seq![Seq::<char>::empty()]
    } else {
        let init = split_where(s.drop_last(), sep);
        if sep(s.last()) {
            init.push(Seq::<char>::empty())
        } else {
            init.update(init.len() - 1, init.last().push(s.last()))
        }
    }
}

pub open spec fn char_is(c: char) -> spec_fn(char) -> bool {
    |x: char| x == c
}

pub open spec fn ws_pred() -> spec_fn(char) -> bool {
    |x: char| is_ws(x)
}

/// `str::split` on one character.
pub open spec fn split_on(s: Seq<char>, c: char) -> Seq<Seq<char>> {
    split_where(s, char_is(c))
}

pub proof fn lemma_split_where_len(s: Seq<char>, sep: spec_fn(char) -> bool)
    ensures
        split_where(s, sep).len() >= 1,
    decreases s.len(),
{
    if s.len() > 0 {
        lemma_split_where_len(s.drop_last(), sep);
    }
}

/// Text without the separator splits into itself alone.
pub proof fn lemma_split_on_plain(a: Seq<char>, c: char)
    requires
        forall|i: int| 0 <= i < a.len() ==> a[i] != c,
    ensures
        split_on(a, c) == seq![a],
    decreases a.len(),
{
    if a.len() > 0 {
        lemma_split_on_plain(a.drop_last(), c);
        assert(a.drop_last().push(a.last()) == a);
        assert(seq![a.drop_last()].update(0, a.drop_last().push(a.last())) == seq![a]);
    } else {
        assert(a == Seq::<char>::empty());
    }
}

/// Splitting two texts joined by the separator gives the pieces of the first, then those of
/// the second.
pub proof fn lemma_split_on_join(a: Seq<char>, b: Seq<char>, c: char)
    ensures
        split_on(a + seq![c] + b, c) == split_on(a, c) + split_on(b, c),
    decreases b.len(),
{
    let s = a + seq![c] + b;
    lemma_split_where_len(a, char_is(c));
    if b.len() == 0 {
        assert(s.drop_last() == a);
        assert(s.last() == c);
        assert(split_on(b, c) == seq![Seq::<char>::empty()]);
        assert(split_on(a, c).push(Seq::<char>::empty()) == split_on(a, c) + seq![Seq::<char>::empty()]);
    } else {
        lemma_split_on_join(a, b.drop_last(), c);
        lemma_split_where_len(b.drop_last(), char_is(c));
        assert(s.drop_last() == a + seq![c] + b.drop_last());
        assert(s.last() == b.last());
        let x = split_on(a, c);
        let y = split_on(b.drop_last(), c);
        if b.last() == c {
            assert((x + y).push(Seq::<char>::empty()) == x + y.push(Seq::<char>::empty()));
        } else {
            assert((x + y).update((x + y).len() - 1, (x + y).last().push(b.last())) == x + y.update(
                y.len() - 1,
                y.last().push(b.last()),
            ));
        }
    }
}

/// `s` without one `'\r'` at its end.
pub open spec fn strip_cr(s: Seq<char>) -> Seq<char> {
    if s.len() > 0 && s.last() == '\r' {
        s.drop_last()
    } else {
        s
    }
}

/// The lines of `s`, as `str::lines` gives them: split at `'\n'`, a `'\r'` before a
/// `'\n'` removed, and no final empty line after a final `'\n'`.
pub open spec fn lines(s: Seq<char>) -> Seq<Seq<char>> {
    let p = split_on(s, '\n');
    if s.len() == 0 {
        Seq::empty()
    } else if s.last() == '\n' {
        p.drop_last().map_values(|x: Seq<char>| strip_cr(x))
    } else {
        p.drop_last().map_values(|x: Seq<char>| strip_cr(x)).push(p.last())
    }
}

/// The non-empty pieces of a sequence of pieces, in order.
pub open spec fn drop_empty(ps: Seq<Seq<char>>) -> Seq<Seq<char>>
    decreases ps.len(),
{
    if ps.len() == 0 {
        ps
    } else if ps.last().len() == 0 {
        drop_empty(ps.drop_last())
    } else {
        drop_empty(ps.drop_last()).push(ps.last())
    }
}

/// The words of `s`, as `str::split_whitespace` gives them.
pub open spec fn words(s: Seq<char>) -> Seq<Seq<char>> {
    drop_empty(split_where(s, ws_pred()))
}

/// The characters of a string slice, in order.
pub fn to_chars(s: &str) -> (res: Vec<char>)
    ensures
        res@ == s@,
{
    let mut res: Vec<char> = Vec::new();
    for c in it: s.chars()
        invariant
            res@ == it.seq().take(it.index() as int),
            it.seq() == s@,
    {
        res.push(c);
    }
    res
}

/// A `String` holding exactly the given characters.
pub fn from_chars(v: &Vec<char>) -> (res: String)
    ensures
        res@ == v@,
{
    let mut res = String::new();
    let n = v.len();
    for i in 0..n
        invariant
            n == v@.len(),
            res@ == v@.take(i as int),
    {
        res.push(v[i]);
        assert(v@.take(i + 1) == v@.take(i as int).push(v@[i as int]));
    }
    assert(v@.take(n as int) == v@);
    res
}

/// The characters of `v` from `lo` up to `hi`.
pub fn slice_chars(v: &Vec<char>, lo: usize, hi: usize) -> (res: Vec<char>)
    requires
        lo <= hi <= v.len(),
    ensures
        res@ == v@.subrange(lo as int, hi as int),
{
    let mut res: Vec<char> = Vec::new();
    let mut i: usize = lo;
    while i < hi
        invariant
            lo <= i <= hi <= v.len(),
            res@ == v@.subrange(lo as int, i as int),
        decreases hi - i,
    {
        res.push(v[i]);
        assert(v@.subrange(lo as int, i + 1) == v@.subrange(lo as int, i as int).push(v@[i as int]));
        i = i + 1;
    }
    res
}

proof fn lemma_trim_start_skip(s: Seq<char>, i: int)
    requires
        0 <= i < s.len(),
        is_ws(s[i]),
    ensures
        trim_start(s.skip(i)) == trim_start(s.skip(i + 1)),
{
    assert(s.skip(i).drop_first() == s.skip(i + 1));
}

proof fn lemma_trim_end_take(s: Seq<char>, i: int)
    requires
        0 < i <= s.len(),
        is_ws(s[i - 1]),
    ensures
        trim_end(s.take(i)) == trim_end(s.take(i - 1)),
{
    assert(s.take(i).drop_last() == s.take(i - 1));
}

/// `str::trim`.
pub fn trim_chars(v: &Vec<char>) -> (res: Vec<char>)
    ensures
        res@ == trim(v@),
{
    let n = v.len();
    let mut lo: usize = 0;
    assert(v@.skip(0) == v@);
    while lo < n && is_ws_exec(v[lo])
        invariant
            lo <= n == v.len(),
            trim_start(v@) == trim_start(v@.skip(lo as int)),
        decreases n - lo,
    {
        proof {
            lemma_trim_start_skip(v@, lo as int);
        }
        lo = lo + 1;
    }
    let ghost t = v@.skip(lo as int);
    assert(trim_start(v@) == t);
    let mut hi: usize = n;
    assert(t.take(t.len() as int) == t);
    while hi > lo && is_ws_exec(v[hi - 1])
        invariant
            lo <= hi <= n == v.len(),
            t == v@.skip(lo as int),
            trim_end(t) == trim_end(t.take(hi - lo)),
        decreases hi,
    {
        proof {
            lemma_trim_end_take(t, hi - lo);
        }
        hi = hi - 1;
    }
    assert(trim_end(t) == t.take(hi - lo));
    assert(t.take(hi - lo) == v@.subrange(lo as int, hi as int));
    slice_chars(v, lo, hi)
}


/// `str::split` on one character.
pub fn split_chars(v: &Vec<char>, c: char) -> (res: Vec<Vec<char>>)
    ensures
        seqs_of(res@) == split_on(v@, c),
{
    let n = v.len();
    let mut done: Vec<Vec<char>> = Vec::new();
    let mut cur: Vec<char> = Vec::new();
    assert(v@.take(0) == Seq::<char>::empty());
    for i in 0..n
        invariant
            n == v@.len(),
            split_on(v@.take(i as int), c) == seqs_of(done@).push(cur@),
    {
        let ghost pre = v@.take(i as int);
        assert(v@.take(i + 1).drop_last() == pre);
        assert(v@.take(i + 1).last() == v@[i as int]);
        proof {
            lemma_split_where_len(pre, char_is(c));
        }
        if v[i] == c {
            let piece = cur;
            done.push(piece);
            cur = Vec::new();
            assert(seqs_of(done@) == seqs_of(done@).drop_last().push(piece@));
        } else {
            cur.push(v[i]);
        }
        assert(seqs_of(done@).push(cur@) == split_on(v@.take(i + 1), c));
    }
    assert(v@.take(n as int) == v@);
    done.push(cur);
    done
}

/// `str::split` on white space, empty pieces kept.
pub fn split_ws_chars(v: &Vec<char>) -> (res: Vec<Vec<char>>)
    ensures
        seqs_of(res@) == split_where(v@, ws_pred()),
{
    let n = v.len();
    let mut done: Vec<Vec<char>> = Vec::new();
    let mut cur: Vec<char> = Vec::new();
    assert(v@.take(0) == Seq::<char>::empty());
    for i in 0..n
        invariant
            n == v@.len(),
            split_where(v@.take(i as int), ws_pred()) == seqs_of(done@).push(cur@),
    {
        let ghost pre = v@.take(i as int);
        assert(v@.take(i + 1).drop_last() == pre);
        assert(v@.take(i + 1).last() == v@[i as int]);
        proof {
            lemma_split_where_len(pre, ws_pred());
        }
        if is_ws_exec(v[i]) {
            let piece = cur;
            done.push(piece);
            cur = Vec::new();
            assert(seqs_of(done@) == seqs_of(done@).drop_last().push(piece@));
        } else {
            cur.push(v[i]);
        }
        assert(seqs_of(done@).push(cur@) == split_where(v@.take(i + 1), ws_pred()));
    }
    assert(v@.take(n as int) == v@);
    done.push(cur);
    done
}

/// `str::split_whitespace`.
pub fn words_chars(v: &Vec<char>) -> (res: Vec<Vec<char>>)
    ensures
        seqs_of(res@) == words(v@),
{
    let ps = split_ws_chars(v);
    let n = ps.len();
    let mut out: Vec<Vec<char>> = Vec::new();
    let ghost pv = seqs_of(ps@);
    assert(pv.take(0) == Seq::<Seq<char>>::empty());
    for i in 0..n
        invariant
            n == ps@.len(),
            pv == seqs_of(ps@),
            drop_empty(pv.take(i as int)) == seqs_of(out@),
    {
        assert(pv.take(i + 1).drop_last() == pv.take(i as int));
        assert(pv.take(i + 1).last() == ps@[i as int]@);
        if ps[i].len() > 0 {
            out.push(slice_chars(&ps[i], 0, ps[i].len()));
            assert(ps@[i as int]@.subrange(0, ps@[i as int]@.len() as int) == ps@[i as int]@);
        }
        assert(seqs_of(out@) == drop_empty(pv.take(i + 1)));
    }
    assert(pv.take(n as int) == pv);
    out
}

/// `str::lines`.
pub fn lines_chars(v: &Vec<char>) -> (res: Vec<Vec<char>>)
    ensures
        seqs_of(res@) == lines(v@),
{
    let ps = split_chars(v, '\n');
    let ghost pv = seqs_of(ps@);
    proof {
        lemma_split_where_len(v@, char_is('\n'));
    }
    let n = v.len();
    if n == 0 {
        return Vec::new();
    }
    let m = ps.len();
    let mut out: Vec<Vec<char>> = Vec::new();
    for i in 0..m - 1
        invariant
            m == ps@.len() >= 1,
            pv == seqs_of(ps@),
            out@.len() == i,
            forall|j: int| 0 <= j < i ==> #[trigger] out@[j]@ == strip_cr(pv[j]),
    {
        let p = &ps[i];
        let k = p.len();
        if k > 0 && p[k - 1] == '\r' {
            out.push(slice_chars(p, 0, k - 1));
            assert(p@.subrange(0, k - 1) == p@.drop_last());
        } else {
            out.push(slice_chars(p, 0, k));
            assert(p@.subrange(0, k as int) == p@);
        }
    }
    assert(seqs_of(out@) == pv.drop_last().map_values(|x: Seq<char>| strip_cr(x)));
    if v[n - 1] != '\n' {
        let last = &ps[m - 1];
        out.push(slice_chars(last, 0, last.len()));
        assert(last@.subrange(0, last@.len() as int) == last@);
        assert(seqs_of(out@) == pv.drop_last().map_values(|x: Seq<char>| strip_cr(x)).push(pv.last()));
    }
    out
}


/// `s` begins with `p`.
pub open spec fn starts_with(s: Seq<char>, p: Seq<char>) -> bool {
    p.len() <= s.len() && s.take(p.len() as int) == p
}

/// `s` ends with `p`.
pub open spec fn ends_with(s: Seq<char>, p: Seq<char>) -> bool {
    p.len() <= s.len() && s.skip(s.len() - p.len()) == p
}

/// `p` occurs in `s` at index `i`.
pub open spec fn occurs_at(s: Seq<char>, p: Seq<char>, i: int) -> bool {
    0 <= i && i + p.len() <= s.len() && s.subrange(i, i + p.len()) == p
}

/// How many times `c` occurs in `s`, as `s.matches(c).count()` counts.
pub open spec fn count_char(s: Seq<char>, c: char) -> nat
    decreases s.len(),
{
    if s.len() == 0 {
        0
    } else {
        count_char(s.drop_last(), c) + if s.last() == c {
            1nat
        } else {
            0nat
        }
    }
}

/// The count of a character in two texts put together is the sum of its counts in each.
pub broadcast proof fn lemma_count_append(a: Seq<char>, b: Seq<char>, c: char)
    ensures
        #[trigger] count_char(a + b, c) == count_char(a, c) + count_char(b, c),
    decreases b.len(),
{
    if b.len() == 0 {
        assert(a + b == a);
    } else {
        lemma_count_append(a, b.drop_last(), c);
        assert((a + b).drop_last() == a + b.drop_last());
    }
}

/// A text in which `c` does not occur counts it zero times.
pub proof fn lemma_count_absent(s: Seq<char>, c: char)
    requires
        forall|i: int| 0 <= i < s.len() ==> s[i] != c,
    ensures
        count_char(s, c) == 0,
    decreases s.len(),
{
    if s.len() > 0 {
        lemma_count_absent(s.drop_last(), c);
    }
}

/// `s` with every occurrence of the non-empty `pat` replaced by `rep`, the occurrences taken
/// from the left without overlap, as `str::replace` does.
pub open spec fn replace_all(s: Seq<char>, pat: Seq<char>, rep: Seq<char>) -> Seq<char>
    recommends
        pat.len() > 0,
    decreases s.len(),
{
    if s.len() == 0 {
        s
    } else if pat.len() > 0 && starts_with(s, pat) {
        rep + replace_all(s.skip(pat.len() as int), pat, rep)
    } else {
        seq![s[0]] + replace_all(s.drop_first(), pat, rep)
    }
}

/// The texts of `ps` one after another.
pub open spec fn concat_all(ps: Seq<Seq<char>>) -> Seq<char>
    decreases ps.len(),
{
    if ps.len() == 0 {
        Seq::empty()
    } else {
        concat_all(ps.drop_last()) + ps.last()
    }
}

/// `p` occurs somewhere in `s`, as `str::contains` tests.
pub open spec fn contains(s: Seq<char>, p: Seq<char>) -> bool {
    exists|i: int| occurs_at(s, p, i)
}

/// The first index from `i` on at which `p` occurs in `s`, or -1.
pub open spec fn find_from(s: Seq<char>, p: Seq<char>, i: int) -> int
    decreases s.len() + 1 - i,
{
    if i < 0 || i + p.len() > s.len() {
        -1
    } else if s.subrange(i, i + p.len()) == p {
        i
    } else {
        find_from(s, p, i + 1)
    }
}

/// The first index at which `p` occurs in `s`, or -1, as `str::find` gives it.
pub open spec fn find(s: Seq<char>, p: Seq<char>) -> int {
    find_from(s, p, 0)
}

pub proof fn lemma_find_from(s: Seq<char>, p: Seq<char>, i: int)
    requires
        0 <= i,
    ensures
        find_from(s, p, i) >= 0 ==> find_from(s, p, i) >= i && occurs_at(s, p, find_from(s, p, i))
            && forall|j: int| i <= j < find_from(s, p, i) ==> !occurs_at(s, p, j),
        find_from(s, p, i) < 0 ==> forall|j: int| i <= j ==> !occurs_at(s, p, j),
    decreases s.len() + 1 - i,
{
    if i + p.len() > s.len() {
    } else if s.subrange(i, i + p.len()) == p {
    } else {
        lemma_find_from(s, p, i + 1);
    }
}

/// An occurrence stays an occurrence when text is added on either side.
pub proof fn lemma_occurs_in_context(a: Seq<char>, x: Seq<char>, b: Seq<char>, p: Seq<char>, k: int)
    requires
        occurs_at(x, p, k),
    ensures
        occurs_at(a + x + b, p, a.len() + k),
{
    assert((a + x + b).subrange(a.len() + k, a.len() + k + p.len()) =~= x.subrange(k, k + p.len()));
}

pub proof fn lemma_find(s: Seq<char>, p: Seq<char>)
    ensures
        find(s, p) >= 0 ==> occurs_at(s, p, find(s, p)) && forall|j: int|
            0 <= j < find(s, p) ==> !occurs_at(s, p, j),
        find(s, p) >= 0 <==> contains(s, p),
{
    lemma_find_from(s, p, 0);
}

/// The last index of `c` in `s`, or -1, as `str::rfind` gives it.
pub open spec fn rfind_char(s: Seq<char>, c: char) -> int
    decreases s.len(),
{
    if s.len() == 0 {
        -1
    } else if s.last() == c {
        s.len() - 1
    } else {
        rfind_char(s.drop_last(), c)
    }
}

/// The `n`-th piece of `str::split` on `c`, if there is one.
pub open spec fn nth_piece(s: Seq<char>, c: char, n: int) -> Option<Seq<char>> {
    if 0 <= n < split_on(s, c).len() {
        Some(split_on(s, c)[n])
    } else {
        None
    }
}

/// `s.split(c).nth(1).unwrap_or("")`: the text between the first and the second `c`.
pub open spec fn second_piece(s: Seq<char>, c: char) -> Seq<char> {
    match nth_piece(s, c, 1) {
        Some(p) => p,
        None => Seq::empty(),
    }
}

/// `s` without repeated trailing `c`, as `str::trim_end_matches` with a character gives it.
pub open spec fn trim_end_char(s: Seq<char>, c: char) -> Seq<char>
    decreases s.len(),
{
    if s.len() > 0 && s.last() == c {
        trim_end_char(s.drop_last(), c)
    } else {
        s
    }
}

/// `s` without trailing characters that are not ASCII digits.
pub open spec fn trim_end_non_digits(s: Seq<char>) -> Seq<char>
    decreases s.len(),
{
    if s.len() > 0 && !is_digit(s.last()) {
        trim_end_non_digits(s.drop_last())
    } else {
        s
    }
}

/// `s` without repeated trailing copies of a non-empty `p`, as `str::trim_end_matches` gives it.
pub open spec fn trim_end_str(s: Seq<char>, p: Seq<char>) -> Seq<char>
    decreases s.len(),
{
    if p.len() > 0 && ends_with(s, p) {
        trim_end_str(s.take(s.len() - p.len()), p)
    } else {
        s
    }
}

/// `s` without repeated leading copies of a non-empty `p`, as `str::trim_start_matches` gives it.
pub open spec fn trim_start_str(s: Seq<char>, p: Seq<char>) -> Seq<char>
    decreases s.len(),
{
    if p.len() > 0 && starts_with(s, p) {
        trim_start_str(s.skip(p.len() as int), p)
    } else {
        s
    }
}

/// The pieces joined with `sep` between them, as `slice::join` gives it.
pub open spec fn join(ps: Seq<Seq<char>>, sep: Seq<char>) -> Seq<char>
    decreases ps.len(),
{
    if ps.len() == 0 {
        Seq::empty()
    } else if ps.len() == 1 {
        ps[0]
    } else {
        join(ps.drop_last(), sep) + sep + ps.last()
    }
}

proof fn lemma_join_extend(ps: Seq<Seq<char>>, sep: Seq<char>, ch: char)
    requires
        ps.len() >= 1,
    ensures
        join(ps.update(ps.len() - 1, ps.last().push(ch)), sep) == join(ps, sep).push(ch),
{
    let qs = ps.update(ps.len() - 1, ps.last().push(ch));
    if ps.len() == 1 {
        assert(qs[0] == ps[0].push(ch));
    } else {
        assert(qs.drop_last() == ps.drop_last());
        assert(qs.last() == ps.last().push(ch));
        assert(join(ps.drop_last(), sep) + sep + ps.last().push(ch) == (join(ps.drop_last(), sep)
            + sep + ps.last()).push(ch));
    }
}

/// Joining the pieces of a split with the separator gives back the text.
pub proof fn lemma_join_split(s: Seq<char>, c: char)
    ensures
        join(split_on(s, c), seq![c]) == s,
    decreases s.len(),
{
    if s.len() == 0 {
        assert(split_on(s, c) == seq![Seq::<char>::empty()]);
    } else {
        let init = split_on(s.drop_last(), c);
        lemma_join_split(s.drop_last(), c);
        lemma_split_where_len(s.drop_last(), char_is(c));
        if s.last() == c {
            let ps = init.push(Seq::<char>::empty());
            assert(ps.drop_last() == init);
            assert(join(ps, seq![c]) == s.drop_last() + seq![c] + Seq::<char>::empty());
            assert(s.drop_last() + seq![c] + Seq::<char>::empty() == s);
        } else {
            lemma_join_extend(init, seq![c], s.last());
            assert(s.drop_last().push(s.last()) == s);
        }
    }
}

pub open spec fn ascii_lower(c: char) -> char {
    if 'A' <= c && c <= 'Z' {
        ((c as u32) + 32) as char
    } else {
        c
    }
}

pub open spec fn lower_ascii(s: Seq<char>) -> Seq<char> {
    s.map_values(|c: char| ascii_lower(c))
}

/// `p`, written in lower-case ASCII, occurs in `s` with ASCII letters compared without case.
///
/// For a `p` of lower-case ASCII letters that holds no `k`, and no `i` as its last letter,
/// this is the same as `s.to_lowercase().contains(p)`: the only characters outside ASCII
/// whose lower case holds an ASCII letter are U+212A (to `k`) and U+0130 (to `i` followed
/// by U+0307).
pub open spec fn contains_ignore_case(s: Seq<char>, p: Seq<char>) -> bool {
    contains(lower_ascii(s), p)
}

pub fn starts_with_chars(v: &Vec<char>, p: &Vec<char>) -> (res: bool)
    ensures
        res == starts_with(v@, p@),
{
    let k = p.len();
    if k > v.len() {
        return false;
    }
    for i in 0..k
        invariant
            k == p@.len() <= v@.len(),
            forall|j: int| 0 <= j < i ==> v@[j] == p@[j],
    {
        if v[i] != p[i] {
            assert(v@.take(k as int)[i as int] != p@[i as int]);
            return false;
        }
    }
    assert(v@.take(k as int) == p@);
    true
}

/// `str::starts_with` with a string pattern.
pub fn starts_with_str(v: &Vec<char>, p: &str) -> (res: bool)
    ensures
        res == starts_with(v@, p@),
{
    let pc = to_chars(p);
    starts_with_chars(v, &pc)
}

/// `str::ends_with` with a string pattern.
pub fn ends_with_chars(v: &Vec<char>, p: &Vec<char>) -> (res: bool)
    ensures
        res == ends_with(v@, p@),
{
    let k = p.len();
    let n = v.len();
    if k > n {
        return false;
    }
    for i in 0..k
        invariant
            k == p@.len() <= v@.len() == n,
            forall|j: int| 0 <= j < i ==> v@[n - k + j] == p@[j],
    {
        if v[n - k + i] != p[i] {
            assert(v@.skip(n - k)[i as int] != p@[i as int]);
            return false;
        }
    }
    assert(v@.skip(n - k) == p@);
    true
}

/// Whether `p` occurs in `v` at `i`.
fn occurs_at_exec(v: &Vec<char>, p: &Vec<char>, i: usize) -> (res: bool)
    ensures
        res == occurs_at(v@, p@, i as int),
{
    let k = p.len();
    let n = v.len();
    if k > n || i > n - k {
        return false;
    }
    for j in 0..k
        invariant
            k == p@.len(),
            n == v@.len(),
            i + k <= n,
            forall|m: int| 0 <= m < j ==> v@[i + m] == p@[m],
    {
        if v[i + j] != p[j] {
            assert(v@.subrange(i as int, i + k)[j as int] != p@[j as int]);
            return false;
        }
    }
    assert(v@.subrange(i as int, i + k) == p@);
    true
}

/// `str::find` with a pattern: the first index at which `p` occurs.
pub fn find_chars(v: &Vec<char>, p: &Vec<char>) -> (res: Option<usize>)
    ensures
        match res {
            Some(i) => i as int == find(v@, p@),
            None => find(v@, p@) == -1,
        },
{
    let n = v.len();
    let k = p.len();
    if k > n {
        return None;
    }
    if k == 0 {
        assert(v@.subrange(0, 0) == p@);
        return Some(0);
    }
    let mut i: usize = 0;
    while i <= n - k
        invariant
            k == p@.len() <= n == v@.len(),
            k >= 1,
            i <= n - k + 1,
            find(v@, p@) == find_from(v@, p@, i as int),
        decreases n - k + 1 - i,
    {
        if occurs_at_exec(v, p, i) {
            return Some(i);
        }
        i = i + 1;
    }
    None
}

/// `str::contains` with a string pattern.
pub fn contains_str(v: &Vec<char>, p: &str) -> (res: bool)
    ensures
        res == contains(v@, p@),
{
    let pc = to_chars(p);
    proof {
        lemma_find(v@, pc@);
    }
    find_chars(v, &pc).is_some()
}

/// `str::rfind` with a character.
pub fn rfind_char_exec(v: &Vec<char>, c: char) -> (res: Option<usize>)
    ensures
        match res {
            Some(i) => i as int == rfind_char(v@, c),
            None => rfind_char(v@, c) == -1,
        },
{
    let mut i: usize = v.len();
    assert(v@.take(i as int) == v@);
    while i > 0
        invariant
            i <= v@.len(),
            rfind_char(v@, c) == rfind_char(v@.take(i as int), c),
        decreases i,
    {
        assert(v@.take(i as int).last() == v@[i - 1]);
        assert(v@.take(i as int).drop_last() == v@.take(i - 1));
        if v[i - 1] == c {
            return Some(i - 1);
        }
        i = i - 1;
    }
    None
}

/// `s.split(c).nth(1).unwrap_or("")`.
pub fn second_piece_chars(v: &Vec<char>, c: char) -> (res: Vec<char>)
    ensures
        res@ == second_piece(v@, c),
{
    let ps = split_chars(v, c);
    if ps.len() > 1 {
        let p = &ps[1];
        assert(ps@[1]@ == seqs_of(ps@)[1]);
        let r = slice_chars(p, 0, p.len());
        assert(p@.subrange(0, p@.len() as int) == p@);
        r
    } else {
        Vec::new()
    }
}

/// `str::trim_end_matches` with a character.
pub fn trim_end_char_chars(v: &Vec<char>, c: char) -> (res: Vec<char>)
    ensures
        res@ == trim_end_char(v@, c),
{
    let mut i: usize = v.len();
    assert(v@.take(i as int) == v@);
    while i > 0 && v[i - 1] == c
        invariant
            i <= v@.len(),
            trim_end_char(v@, c) == trim_end_char(v@.take(i as int), c),
        decreases i,
    {
        assert(v@.take(i as int).drop_last() == v@.take(i - 1));
        i = i - 1;
    }
    slice_chars(v, 0, i)
}

/// `str::trim_end_matches` with "not an ASCII digit".
pub fn trim_end_non_digits_chars(v: &Vec<char>) -> (res: Vec<char>)
    ensures
        res@ == trim_end_non_digits(v@),
{
    let mut i: usize = v.len();
    assert(v@.take(i as int) == v@);
    while i > 0 && !('0' <= v[i - 1] && v[i - 1] <= '9')
        invariant
            i <= v@.len(),
            trim_end_non_digits(v@) == trim_end_non_digits(v@.take(i as int)),
        decreases i,
    {
        assert(v@.take(i as int).drop_last() == v@.take(i - 1));
        i = i - 1;
    }
    slice_chars(v, 0, i)
}

/// `str::trim_end_matches` with a string pattern.
pub fn trim_end_str_chars(v: &Vec<char>, p: &str) -> (res: Vec<char>)
    ensures
        res@ == trim_end_str(v@, p@),
{
    let pc = to_chars(p);
    let mut cur = slice_chars(v, 0, v.len());
    assert(v@.subrange(0, v@.len() as int) == v@);
    if pc.len() == 0 {
        return cur;
    }
    while ends_with_chars(&cur, &pc)
        invariant
            pc@ == p@,
            pc@.len() > 0,
            trim_end_str(v@, p@) == trim_end_str(cur@, p@),
        decreases cur@.len(),
    {
        let k = cur.len() - pc.len();
        cur = slice_chars(&cur, 0, k);
    }
    cur
}

/// `str::trim_start_matches` with a string pattern.
pub fn trim_start_str_chars(v: &Vec<char>, p: &str) -> (res: Vec<char>)
    ensures
        res@ == trim_start_str(v@, p@),
{
    let pc = to_chars(p);
    let mut cur = slice_chars(v, 0, v.len());
    assert(v@.subrange(0, v@.len() as int) == v@);
    if pc.len() == 0 {
        return cur;
    }
    while starts_with_chars(&cur, &pc)
        invariant
            pc@ == p@,
            pc@.len() > 0,
            trim_start_str(v@, p@) == trim_start_str(cur@, p@),
        decreases cur@.len(),
    {
        let k = pc.len();
        let n = cur.len();
        cur = slice_chars(&cur, k, n);
    }
    cur
}

/// ASCII lower case of each character.
pub fn lower_ascii_chars(v: &Vec<char>) -> (res: Vec<char>)
    ensures
        res@ == lower_ascii(v@),
{
    let mut res: Vec<char> = Vec::new();
    let n = v.len();
    for i in 0..n
        invariant
            n == v@.len(),
            res@.len() == i,
            forall|j: int| 0 <= j < i ==> res@[j] == ascii_lower(#[trigger] v@[j]),
    {
        let c = v[i];
        if 'A' <= c && c <= 'Z' {
            let b: u8 = (c as u32) as u8;
            let lc: char = (b + 32) as char;
            res.push(lc);
        } else {
            res.push(c);
        }
    }
    assert(res@ == lower_ascii(v@));
    res
}

/// `s.to_lowercase().contains(p)` for a lower-case ASCII `p` (see `contains_ignore_case`).
pub fn contains_ignore_case_str(v: &Vec<char>, p: &str) -> (res: bool)
    ensures
        res == contains_ignore_case(v@, p@),
{
    let l = lower_ascii_chars(v);
    contains_str(&l, p)
}

/// `slice::join` of character pieces.
pub fn join_chars(ps: &Vec<Vec<char>>, sep: &str) -> (res: Vec<char>)
    ensures
        res@ == join(seqs_of(ps@), sep@),
{
    let sc = to_chars(sep);
    let mut res: Vec<char> = Vec::new();
    let n = ps.len();
    let ghost pv = seqs_of(ps@);
    assert(pv.take(0) == Seq::<Seq<char>>::empty());
    for i in 0..n
        invariant
            n == ps@.len(),
            pv == seqs_of(ps@),
            sc@ == sep@,
            res@ == join(pv.take(i as int), sep@),
    {
        assert(pv.take(i + 1).drop_last() == pv.take(i as int));
        if i > 0 {
            append_chars(&mut res, &sc);
        }
        append_chars(&mut res, &ps[i]);
        assert(pv.take(i + 1).last() == ps@[i as int]@);
        proof {
            if i == 0 {
                assert(pv.take(1)[0] == ps@[0]@);
            }
        }
    }
    assert(pv.take(n as int) == pv);
    res
}

/// Append the characters of `w` to `v`.
pub fn append_chars(v: &mut Vec<char>, w: &Vec<char>)
    ensures
        final(v)@ == old(v)@ + w@,
{
    let n = w.len();
    for i in 0..n
        invariant
            n == w@.len(),
            v@ == old(v)@ + w@.take(i as int),
    {
        v.push(w[i]);
        assert(w@.take(i + 1) == w@.take(i as int).push(w@[i as int]));
    }
    assert(w@.take(n as int) == w@);
}


/// `s.split(':').nth(1).unwrap_or("").trim()`: the value of a `Label: value` line.
pub open spec fn colon_value(t: Seq<char>) -> Seq<char> {
    trim(second_piece(t, ':'))
}

/// `s.split(':').nth(1).unwrap_or("").trim()`, as a `String`.
pub fn colon_value_exec(t: &Vec<char>) -> (res: String)
    ensures
        res@ == colon_value(t@),
{
    from_chars(&trim_chars(&second_piece_chars(t, ':')))
}


/// Whether two character sequences are equal.
pub fn chars_eq(a: &Vec<char>, b: &Vec<char>) -> (res: bool)
    ensures
        res == (a@ == b@),
{
    if a.len() != b.len() {
        return false;
    }
    let n = a.len();
    for i in 0..n
        invariant
            n == a@.len() == b@.len(),
            forall|j: int| 0 <= j < i ==> a@[j] == b@[j],
    {
        if a[i] != b[i] {
            return false;
        }
    }
    assert(a@ == b@);
    true
}

/// A copy of the characters.
pub fn copy_chars(v: &Vec<char>) -> (res: Vec<char>)
    ensures
        res@ == v@,
{
    let r = slice_chars(v, 0, v.len());
    assert(v@.subrange(0, v@.len() as int) == v@);
    r
}

} // verus!

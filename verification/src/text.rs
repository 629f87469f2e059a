//! Text operations on strings and character sequences, each with its
//! mathematical specification over `Seq<char>`.

use vstd::prelude::*;

verus! {

/// Whether two string slices hold the same characters.
pub fn str_eq(a: &str, b: &str) -> (res: bool)
    ensures
        res == (a@ == b@),
{
    let ca = chars_of(a);
    let cb = chars_of(b);
    if ca.len() != cb.len() {
        return false;
    }
    let mut i: usize = 0;
    while i < ca.len()
        invariant
            ca@ == a@,
            cb@ == b@,
            ca@.len() == cb@.len(),
            i <= ca@.len(),
            forall|j: int| 0 <= j < i ==> ca@[j] == cb@[j],
        decreases ca@.len() - i,
    {
        if ca[i] != cb[i] {
            return false;
        }
        i = i + 1;
    }
    assert(ca@ =~= cb@);
    true
}

/// The characters of `s`, in order.
pub fn chars_of(s: &str) -> (res: Vec<char>)
    ensures
        res@ == s@,
{
    let n = s.unicode_len();
    let mut res: Vec<char> = Vec::new();
    let mut i: usize = 0;
    while i < n
        invariant
            n == s@.len(),
            i <= n,
            res@ == s@.subrange(0, i as int),
        decreases n - i,
    {
        let c = s.get_char(i);
        res.push(c);
        i = i + 1;
    }
    res
}

} // verus!

verus! {

/// Views of a sequence of string slices, as character sequences.
pub open spec fn str_views(v: Seq<&str>) -> Seq<Seq<char>> {
    v.map_values(|s: &str| s@)
}

/// Views of a sequence of strings, as character sequences.
pub open spec fn string_views(v: Seq<String>) -> Seq<Seq<char>> {
    v.map_values(|s: String| s@)
}

/// The Unicode `White_Space` property, which `char::is_whitespace` tests:
/// U+0009..U+000D, U+0020, U+0085, U+00A0, U+1680, U+2000..U+200A, U+2028,
/// U+2029, U+202F, U+205F and U+3000.
pub open spec fn is_ws(c: char) -> bool {
    let v = c as u32;
    ||| 0x09 <= v <= 0x0d
    ||| v == 0x20
    ||| v == 0x85
    ||| v == 0xa0
    ||| v == 0x1680
    ||| 0x2000 <= v <= 0x200a
    ||| v == 0x2028
    ||| v == 0x2029
    ||| v == 0x202f
    ||| v == 0x205f
    ||| v == 0x3000
}

/// Whether `c` is a whitespace character (Unicode `White_Space`).
pub fn is_whitespace(c: char) -> (res: bool)
    ensures
        res == is_ws(c),
{
    let v: u32 = c as u32;
    (0x09 <= v && v <= 0x0d) || v == 0x20 || v == 0x85 || v == 0xa0 || v == 0x1680 || (0x2000
        <= v && v <= 0x200a) || v == 0x2028 || v == 0x2029 || v == 0x202f || v == 0x205f || v
        == 0x3000
}

/// The maximal runs of non-whitespace characters of `s`, from left to right.
pub open spec fn split_ws(s: Seq<char>) -> Seq<Seq<char>>
    decreases s.len(),
{
    if s.len() == 0 {
        seq![]
    } else {
        let p = s.drop_last();
        let c = s.last();
        let w = split_ws(p);
        if is_ws(c) {
            w
        } else if p.len() > 0 && !is_ws(p.last()) {
            w.update(w.len() - 1, w.last().push(c))
        } else {
            w.push(seq![c])
        }
    }
}

/// Splits `s` at whitespace, as `str::split_whitespace` does: the pieces
/// are the maximal runs of non-whitespace characters.
pub fn split_whitespace<'a>(s: &'a str) -> (res: Vec<&'a str>)
    ensures
        str_views(res@) == split_ws(s@),
{
    let cs = chars_of(s);
    let n = cs.len();
    let mut res: Vec<&'a str> = Vec::new();
    let mut in_word = false;
    let mut start: usize = 0;
    let mut i: usize = 0;
    while i < n
        invariant
            n == cs@.len(),
            cs@ == s@,
            i <= n,
            start <= i,
            in_word <==> (i > 0 && !is_ws(s@[i - 1])),
            in_word ==> split_ws(s@.take(i as int)) == str_views(res@).push(
                s@.subrange(start as int, i as int),
            ),
            in_word ==> start < i,
            !in_word ==> split_ws(s@.take(i as int)) == str_views(res@),
        decreases n - i,
    {
        let c = cs[i];
        let ghost prev = s@.take(i as int);
        assert(s@.take(i + 1).drop_last() =~= prev);
        assert(s@.take(i + 1).last() == c);
        if is_whitespace(c) {
            if in_word {
                let w = s.substring_char(start, i);
                res.push(w);
                assert(str_views(res@) =~= str_views(res@).drop_last().push(w@));
            }
            in_word = false;
        } else {
            if in_word {
                assert(s@.subrange(start as int, i + 1) =~= s@.subrange(start as int, i as int).push(
                    c,
                ));
            } else {
                start = i;
                assert(s@.subrange(start as int, i + 1) =~= seq![c]);
            }
            in_word = true;
        }
        i = i + 1;
    }
    assert(s@.take(n as int) =~= s@);
    if in_word {
        let w = s.substring_char(start, n);
        res.push(w);
        assert(str_views(res@) =~= str_views(res@).drop_last().push(w@));
    }
    res
}

} // verus!

verus! {

/// `pat` occurs in `s` as a contiguous piece.
pub open spec fn occurs_in(s: Seq<char>, pat: Seq<char>) -> bool {
    exists|i: int| 0 <= i && i + pat.len() <= s.len() && #[trigger] s.subrange(i, i + pat.len()) == pat
}

/// Whether the characters of `pat` stand in `s` from position `at` on.
fn matches_at(s: &Vec<char>, at: usize, pat: &Vec<char>) -> (res: bool)
    requires
        at + pat@.len() <= s@.len(),
    ensures
        res == (s@.subrange(at as int, at + pat@.len()) == pat@),
{
    let m = pat.len();
    let mut k: usize = 0;
    while k < m
        invariant
            m == pat@.len(),
            at + m <= s@.len(),
            k <= m,
            s@.subrange(at as int, at + k) == pat@.subrange(0, k as int),
        decreases m - k,
    {
        assert(at + k < s.len());
        if s[at + k] != pat[k] {
            assert(s@.subrange(at as int, at + m)[k as int] != pat@[k as int]);
            return false;
        }
        assert(s@.subrange(at as int, at + k + 1) =~= s@.subrange(at as int, at + k).push(
            s@[at + k],
        ));
        assert(pat@.subrange(0, k + 1) =~= pat@.subrange(0, k as int).push(pat@[k as int]));
        k = k + 1;
    }
    assert(pat@.subrange(0, m as int) =~= pat@);
    true
}

/// Whether `pat` occurs in `s`, as `str::contains` with a string pattern.
pub fn contains(s: &str, pat: &str) -> (res: bool)
    ensures
        res == occurs_in(s@, pat@),
{
    let cs = chars_of(s);
    let ps = chars_of(pat);
    let n = cs.len();
    let m = ps.len();
    if m > n {
        return false;
    }
    let mut i: usize = 0;
    while i <= n - m
        invariant
            cs@ == s@,
            ps@ == pat@,
            n == s@.len(),
            m == pat@.len(),
            m <= n,
            i <= n - m + 1,
            forall|j: int| 0 <= j < i ==> #[trigger] s@.subrange(j, j + m) != pat@,
        decreases n - m + 1 - i,
    {
        if matches_at(&cs, i, &ps) {
            return true;
        }
        if i == n - m {
            return false;
        }
        i = i + 1;
    }
    false
}

/// `s` with every occurrence of the non-empty `pat` replaced by `rep`,
/// the occurrences taken from left to right without overlap.
pub open spec fn replace_all(s: Seq<char>, pat: Seq<char>, rep: Seq<char>) -> Seq<char>
    decreases s.len(),
{
    if s.len() == 0 {
        seq![]
    } else if 0 < pat.len() <= s.len() && s.take(pat.len() as int) == pat {
        rep + replace_all(s.skip(pat.len() as int), pat, rep)
    } else {
        seq![s[0]] + replace_all(s.skip(1), pat, rep)
    }
}

/// `String::push` from std: appends one character.
#[verifier::external_body]
pub(crate) fn push_char(s: &mut String, c: char)
    ensures
        final(s)@ == old(s)@.push(c),
{
    s.push(c)
}

/// `str::replace` with a non-empty string pattern: every occurrence of
/// `pat`, from left to right and without overlap, becomes `rep`.
pub fn replace(s: &str, pat: &str, rep: &str) -> (res: String)
    requires
        pat@.len() > 0,
    ensures
        res@ == replace_all(s@, pat@, rep@),
{
    let cs = chars_of(s);
    let ps = chars_of(pat);
    let n = cs.len();
    let m = ps.len();
    let mut res = String::new();
    let mut i: usize = 0;
    assert(s@.skip(0) =~= s@);
    assert(res@ + replace_all(s@, pat@, rep@) =~= replace_all(s@, pat@, rep@));
    while i < n
        invariant
            cs@ == s@,
            ps@ == pat@,
            n == s@.len(),
            m == pat@.len(),
            m > 0,
            i <= n,
            res@ + replace_all(s@.skip(i as int), pat@, rep@) == replace_all(s@, pat@, rep@),
        decreases n - i,
    {
        let ghost rest = s@.skip(i as int);
        if m <= n - i && matches_at(&cs, i, &ps) {
            assert(rest.take(m as int) =~= s@.subrange(i as int, i + m));
            assert(rest.skip(m as int) =~= s@.skip(i + m));
            let ghost before = res@;
            res.append(rep);
            assert(res@ + replace_all(s@.skip(i + m), pat@, rep@) =~= before + (rep@
                + replace_all(rest.skip(m as int), pat@, rep@)));
            i = i + m;
        } else {
            if m <= n - i {
                assert(rest.take(m as int) =~= s@.subrange(i as int, i + m));
            }
            assert(rest.skip(1) =~= s@.skip(i + 1));
            assert(rest[0] == cs@[i as int]);
            let ghost before = res@;
            push_char(&mut res, cs[i]);
            assert(res@ + replace_all(s@.skip(i + 1), pat@, rep@) =~= before + (seq![rest[0]]
                + replace_all(rest.skip(1), pat@, rep@)));
            i = i + 1;
        }
    }
    assert(s@.skip(n as int) =~= Seq::<char>::empty());
    assert(res@ + replace_all(s@.skip(n as int), pat@, rep@) =~= res@);
    res
}

} // verus!

verus! {

/// `s` without its leading whitespace.
pub open spec fn trim_start_seq(s: Seq<char>) -> Seq<char>
    decreases s.len(),
{
    if s.len() > 0 && is_ws(s[0]) {
        trim_start_seq(s.drop_first())
    } else {
        s
    }
}

/// `s` without its trailing whitespace.
pub open spec fn trim_end_seq(s: Seq<char>) -> Seq<char>
    decreases s.len(),
{
    if s.len() > 0 && is_ws(s.last()) {
        trim_end_seq(s.drop_last())
    } else {
        s
    }
}

/// `s` without leading and trailing whitespace.
pub open spec fn trim_seq(s: Seq<char>) -> Seq<char> {
    trim_end_seq(trim_start_seq(s))
}

/// `str::trim`: removes leading and trailing whitespace.
pub fn trim<'a>(s: &'a str) -> (res: &'a str)
    ensures
        res@ == trim_seq(s@),
{
    let cs = chars_of(s);
    let n = cs.len();
    let mut i: usize = 0;
    assert(s@.skip(0) =~= s@);
    while i < n && is_whitespace(cs[i])
        invariant
            cs@ == s@,
            n == s@.len(),
            i <= n,
            trim_start_seq(s@.skip(i as int)) == trim_start_seq(s@),
        decreases n - i,
    {
        assert(s@.skip(i as int).drop_first() =~= s@.skip(i + 1));
        i = i + 1;
    }
    assert(trim_start_seq(s@.skip(i as int)) == s@.skip(i as int));
    assert(s@.subrange(i as int, n as int) =~= s@.skip(i as int));
    let mut j: usize = n;
    while j > i && is_whitespace(cs[j - 1])
        invariant
            cs@ == s@,
            n == s@.len(),
            i <= j <= n,
            trim_end_seq(s@.subrange(i as int, j as int)) == trim_seq(s@),
        decreases j,
    {
        assert(s@.subrange(i as int, j as int).drop_last() =~= s@.subrange(i as int, j - 1));
        j = j - 1;
    }
    s.substring_char(i, j)
}

/// Index of the first line feed in `s`, or the length of `s` when it has none.
pub open spec fn first_newline(s: Seq<char>) -> int
    decreases s.len(),
{
    if s.len() == 0 {
        0
    } else if s[0] == '\n' {
        0
    } else {
        1 + first_newline(s.drop_first())
    }
}

/// `s` without one trailing carriage return, if it ends with one.
pub open spec fn strip_cr(s: Seq<char>) -> Seq<char> {
    if s.len() > 0 && s.last() == '\r' {
        s.drop_last()
    } else {
        s
    }
}

/// The lines of `s`, as `str::lines` gives them: pieces ended by `\n` or
/// `\r\n`, without their line ending; the final line ending is optional.
pub open spec fn lines_seq(s: Seq<char>) -> Seq<Seq<char>>
    decreases s.len(),
{
    if s.len() == 0 {
        seq![]
    } else {
        let k = first_newline(s);
        if 0 <= k < s.len() {
            seq![strip_cr(s.take(k))] + lines_seq(s.skip(k + 1))
        } else {
            seq![s]
        }
    }
}

proof fn lemma_first_newline(s: Seq<char>, k: int)
    requires
        0 <= k <= s.len(),
        forall|j: int| 0 <= j < k ==> s[j] != '\n',
        k == s.len() || s[k] == '\n',
    ensures
        first_newline(s) == k,
    decreases k,
{
    if k > 0 {
        lemma_first_newline(s.drop_first(), k - 1);
    }
}

/// `str::lines`: the lines of `s`.
pub fn lines<'a>(s: &'a str) -> (res: Vec<&'a str>)
    ensures
        str_views(res@) == lines_seq(s@),
{
    let cs = chars_of(s);
    let n = cs.len();
    let mut res: Vec<&'a str> = Vec::new();
    let mut start: usize = 0;
    let mut i: usize = 0;
    assert(s@.skip(0) =~= s@);
    while i < n
        invariant
            cs@ == s@,
            n == s@.len(),
            start <= i <= n,
            forall|j: int| start <= j < i ==> s@[j] != '\n',
            str_views(res@) + lines_seq(s@.skip(start as int)) == lines_seq(s@),
        decreases n - i,
    {
        if cs[i] == '\n' {
            let ghost rest = s@.skip(start as int);
            proof {
                lemma_first_newline(rest, i - start);
            }
            let mut end = i;
            if end > start && cs[end - 1] == '\r' {
                end = end - 1;
            }
            let line = s.substring_char(start, end);
            assert(line@ == strip_cr(rest.take(i - start)));
            assert(rest.skip(i - start + 1) =~= s@.skip(i + 1));
            let ghost before = str_views(res@);
            res.push(line);
            assert(str_views(res@) =~= before.push(line@));
            assert(str_views(res@) + lines_seq(s@.skip(i + 1)) =~= before + lines_seq(rest));
            start = i + 1;
        }
        i = i + 1;
    }
    let ghost rest = s@.skip(start as int);
    if start < n {
        proof {
            lemma_first_newline(rest, n - start);
        }
        let line = s.substring_char(start, n);
        assert(line@ =~= rest);
        let ghost before = str_views(res@);
        res.push(line);
        assert(str_views(res@) =~= before.push(line@));
    } else {
        assert(rest.len() == 0);
    }
    assert(str_views(res@) =~= str_views(res@) + Seq::<Seq<char>>::empty());
    res
}

} // verus!

verus! {

/// The pieces of `v` joined by single spaces.
pub open spec fn join_spaces(v: Seq<Seq<char>>) -> Seq<char>
    decreases v.len(),
{
    if v.len() == 0 {
        seq![]
    } else if v.len() == 1 {
        v[0]
    } else {
        join_spaces(v.drop_last()) + seq![' '] + v.last()
    }
}

/// Joins the pieces of `v`, with one space between two neighbours.
pub fn join_with_spaces(v: &[&str]) -> (res: String)
    ensures
        res@ == join_spaces(str_views(v@)),
{
    let n = v.len();
    let mut res = String::new();
    let mut i: usize = 0;
    while i < n
        invariant
            n == v@.len(),
            i <= n,
            res@ == join_spaces(str_views(v@).take(i as int)),
        decreases n - i,
    {
        let ghost views = str_views(v@);
        assert(views.take(i + 1).drop_last() =~= views.take(i as int));
        if i > 0 {
            push_char(&mut res, ' ');
        }
        res.append(v[i]);
        i = i + 1;
    }
    assert(str_views(v@).take(n as int) =~= str_views(v@));
    res
}

/// `std::str::from_utf8`: the characters that `bytes` encode when they are
/// well-formed UTF-8 (as `vstd::utf8` defines it), and nothing otherwise.
#[verifier::external_body]
pub(crate) fn utf8_to_str(bytes: &[u8]) -> (res: Option<&str>)
    ensures
        res is Some <==> vstd::utf8::valid_utf8(bytes@),
        res matches Some(s) ==> s@ == vstd::utf8::decode_utf8(bytes@),
{
    std::str::from_utf8(bytes).ok()
}

} // verus!

verus! {

/// A piece of `s` that holds `pat` makes `s` hold it.
pub proof fn lemma_occurs_in_subrange(s: Seq<char>, a: int, b: int, pat: Seq<char>)
    requires
        0 <= a <= b <= s.len(),
        occurs_in(s.subrange(a, b), pat),
    ensures
        occurs_in(s, pat),
{
    let sub = s.subrange(a, b);
    let i = choose|i: int| 0 <= i && i + pat.len() <= sub.len() && #[trigger] sub.subrange(i, i + pat.len()) == pat;
    assert(s.subrange(a + i, a + i + pat.len()) =~= sub.subrange(i, i + pat.len()));
}

/// Replacing a pattern that does not occur leaves `s` as it is.
pub proof fn lemma_replace_absent(s: Seq<char>, pat: Seq<char>, rep: Seq<char>)
    requires
        pat.len() > 0,
        !occurs_in(s, pat),
    ensures
        replace_all(s, pat, rep) == s,
    decreases s.len(),
{
    if s.len() > 0 {
        if pat.len() <= s.len() && s.take(pat.len() as int) == pat {
            assert(s.subrange(0, 0 + pat.len() as int) == pat);
            assert(occurs_in(s, pat));
        }
        let t = s.skip(1);
        if occurs_in(t, pat) {
            assert(t =~= s.subrange(1, s.len() as int));
            lemma_occurs_in_subrange(s, 1, s.len() as int, pat);
        }
        lemma_replace_absent(t, pat, rep);
        assert(replace_all(s, pat, rep) == seq![s[0]] + replace_all(t, pat, rep));
        assert(s =~= seq![s[0]] + t);
    }
}

/// Replacing in the pattern itself gives the replacement.
pub proof fn lemma_replace_whole(pat: Seq<char>, rep: Seq<char>)
    requires
        pat.len() > 0,
    ensures
        replace_all(pat, pat, rep) == rep,
{
    assert(pat.take(pat.len() as int) =~= pat);
    assert(pat.skip(pat.len() as int) =~= Seq::<char>::empty());
    assert(replace_all(Seq::<char>::empty(), pat, rep) == Seq::<char>::empty());
    assert(replace_all(pat, pat, rep) == rep + replace_all(pat.skip(pat.len() as int), pat, rep));
    assert(rep + Seq::<char>::empty() =~= rep);
}

/// Each piece of `split_ws(s)` is a piece of `s`, and when `s` ends with a
/// non-whitespace character, the last piece ends where `s` ends.
pub proof fn lemma_split_ws_pieces(s: Seq<char>)
    ensures
        forall|k: int| 0 <= k < split_ws(s).len() ==> exists|a: int, b: int| 0 <= a <= b <= s.len() && #[trigger] split_ws(s)[k] == s.subrange(a, b),
        s.len() > 0 && !is_ws(s.last()) ==> split_ws(s).len() > 0 && exists|a: int| 0 <= a < s.len() && split_ws(s).last() == #[trigger] s.subrange(a, s.len() as int),
    decreases s.len(),
{
    if s.len() > 0 {
        let p = s.drop_last();
        let c = s.last();
        let w = split_ws(p);
        lemma_split_ws_pieces(p);
        assert forall|k: int| 0 <= k < w.len() implies exists|a: int, b: int| 0 <= a <= b <= s.len() && #[trigger] w[k] == s.subrange(a, b) by {
            let (a, b) = choose|a: int, b: int| 0 <= a <= b <= p.len() && #[trigger] w[k] == p.subrange(a, b);
            assert(p.subrange(a, b) =~= s.subrange(a, b));
        }
        if is_ws(c) {
        } else if p.len() > 0 && !is_ws(p.last()) {
            let a = choose|a: int| 0 <= a < p.len() && w.last() == #[trigger] p.subrange(a, p.len() as int);
            assert(w.last().push(c) =~= s.subrange(a, s.len() as int));
            let r = w.update(w.len() - 1, w.last().push(c));
            assert(r == split_ws(s));
            assert forall|k: int| 0 <= k < r.len() implies exists|a: int, b: int| 0 <= a <= b <= s.len() && #[trigger] r[k] == s.subrange(a, b) by {
                if k < w.len() - 1 {
                    assert(r[k] == w[k]);
                } else {
                    assert(r[k] == s.subrange(a, s.len() as int));
                }
            }
        } else {
            let r = w.push(seq![c]);
            assert(seq![c] =~= s.subrange(p.len() as int, s.len() as int));
            assert forall|k: int| 0 <= k < r.len() implies exists|a: int, b: int| 0 <= a <= b <= s.len() && #[trigger] r[k] == s.subrange(a, b) by {
                if k < w.len() {
                    assert(r[k] == w[k]);
                } else {
                    assert(r[k] == s.subrange(p.len() as int, s.len() as int));
                }
            }
        }
    }
}

} // verus!

verus! {

/// When `s` ends with a non-whitespace character, its last piece is the
/// whole run of non-whitespace characters at its end.
proof fn lemma_split_ws_last_run(s: Seq<char>)
    requires
        s.len() > 0,
        !is_ws(s.last()),
    ensures
        split_ws(s).len() > 0,
        exists|a: int| 0 <= a < s.len() && (a == 0 || is_ws(s[a - 1])) && split_ws(s).last()
            == #[trigger] s.subrange(a, s.len() as int),
    decreases s.len(),
{
    let p = s.drop_last();
    let c = s.last();
    if p.len() > 0 && !is_ws(p.last()) {
        lemma_split_ws_last_run(p);
        let w = split_ws(p);
        let a = choose|a: int| 0 <= a < p.len() && (a == 0 || is_ws(p[a - 1])) && w.last() == #[trigger] p.subrange(a, p.len() as int);
        assert(w.last().push(c) =~= s.subrange(a, s.len() as int));
        assert(a == 0 || is_ws(s[a - 1]));
    } else {
        assert(seq![c] =~= s.subrange(p.len() as int, s.len() as int));
        assert(p.len() == 0 || is_ws(s[p.len() - 1]));
    }
}

/// `pat` occurring in `x` occurs in `x` with more characters after it.
proof fn lemma_occurs_in_push(x: Seq<char>, c: char, pat: Seq<char>)
    requires
        occurs_in(x, pat),
    ensures
        occurs_in(x.push(c), pat),
{
    let i = choose|i: int| 0 <= i && i + pat.len() <= x.len() && #[trigger] x.subrange(i, i + pat.len()) == pat;
    assert(x.push(c).subrange(i, i + pat.len()) =~= x.subrange(i, i + pat.len()));
}

/// A pattern without whitespace that occurs in `s` occurs in one of the
/// pieces of `split_ws(s)`.
pub proof fn lemma_split_ws_keeps(s: Seq<char>, pat: Seq<char>)
    requires
        pat.len() > 0,
        forall|j: int| 0 <= j < pat.len() ==> !is_ws(#[trigger] pat[j]),
        occurs_in(s, pat),
    ensures
        exists|k: int| 0 <= k < split_ws(s).len() && occurs_in(#[trigger] split_ws(s)[k], pat),
    decreases s.len(),
{
    let i = choose|i: int| 0 <= i && i + pat.len() <= s.len() && #[trigger] s.subrange(i, i + pat.len()) == pat;
    let p = s.drop_last();
    let c = s.last();
    let w = split_ws(p);
    if i + pat.len() <= p.len() {
        assert(p.subrange(i, i + pat.len()) =~= s.subrange(i, i + pat.len()));
        lemma_split_ws_keeps(p, pat);
        let k = choose|k: int| 0 <= k < w.len() && occurs_in(#[trigger] w[k], pat);
        if is_ws(c) {
            assert(split_ws(s)[k] == w[k]);
        } else if p.len() > 0 && !is_ws(p.last()) {
            if k == w.len() - 1 {
                lemma_occurs_in_push(w[k], c, pat);
                assert(split_ws(s)[k] == w[k].push(c));
            } else {
                assert(split_ws(s)[k] == w[k]);
            }
        } else {
            assert(split_ws(s)[k] == w[k]);
        }
    } else {
        assert(i + pat.len() == s.len());
        assert(s.subrange(i, i + pat.len())[pat.len() - 1] == pat[pat.len() - 1]);
        assert(!is_ws(c));
        lemma_split_ws_last_run(s);
        let a = choose|a: int| 0 <= a < s.len() && (a == 0 || is_ws(s[a - 1])) && split_ws(s).last() == #[trigger] s.subrange(a, s.len() as int);
        if a > i {
            assert(s[a - 1] == s.subrange(i, i + pat.len())[a - 1 - i]);
            assert(!is_ws(pat[a - 1 - i]));
        }
        let last = s.subrange(a, s.len() as int);
        assert(last.subrange(i - a, i - a + pat.len()) =~= s.subrange(i, i + pat.len()));
        assert(occurs_in(last, pat));
        assert(split_ws(s)[split_ws(s).len() - 1] == last);
    }
}

/// `pat` occurring in `y` occurs in `x + y`.
proof fn lemma_occurs_in_suffix(x: Seq<char>, y: Seq<char>, pat: Seq<char>)
    requires
        occurs_in(y, pat),
    ensures
        occurs_in(x + y, pat),
{
    let i = choose|i: int| 0 <= i && i + pat.len() <= y.len() && #[trigger] y.subrange(i, i + pat.len()) == pat;
    assert((x + y).subrange(x.len() + i, x.len() + i + pat.len()) =~= y.subrange(i, i + pat.len()));
}

/// Replacing `{args}` in a word that does not start with `{` takes its
/// first character as it is.
proof fn lemma_replace_args_step(s: Seq<char>, rep: Seq<char>)
    requires
        s.len() > 0,
        s[0] != '{',
    ensures
        replace_all(s, "{args}"@, rep) == seq![s[0]] + replace_all(s.skip(1), "{args}"@, rep),
{
    reveal_strlit("{args}");
    if "{args}"@.len() <= s.len() && s.take("{args}"@.len() as int) == "{args}"@ {
        assert(s.take(6)[0] == s[0]);
    }
}

/// Replacing `{args}` keeps every `{bin}`: the two cannot overlap.
pub proof fn lemma_replace_args_keeps_bin(s: Seq<char>, rep: Seq<char>)
    requires
        occurs_in(s, "{bin}"@),
    ensures
        occurs_in(replace_all(s, "{args}"@, rep), "{bin}"@),
    decreases s.len(),
{
    reveal_strlit("{args}");
    reveal_strlit("{bin}");
    let q = "{args}"@;
    let b = "{bin}"@;
    let i = choose|i: int| 0 <= i && i + b.len() <= s.len() && #[trigger] s.subrange(i, i + b.len()) == b;
    assert(s[i] == s.subrange(i, i + 5)[0]);
    assert(s[i + 1] == s.subrange(i, i + 5)[1]);
    if q.len() <= s.len() && s.take(q.len() as int) == q {
        assert(s[0] == s.take(6)[0] && s[1] == s.take(6)[1] && s[2] == s.take(6)[2]);
        assert(s[3] == s.take(6)[3] && s[4] == s.take(6)[4] && s[5] == s.take(6)[5]);
        assert(i >= 6);
        let t = s.skip(6);
        assert(t.subrange(i - 6, i - 6 + 5) =~= s.subrange(i, i + 5));
        lemma_replace_args_keeps_bin(t, rep);
        lemma_occurs_in_suffix(rep, replace_all(t, q, rep), b);
    } else if i >= 1 {
        let t = s.skip(1);
        assert(t.subrange(i - 1, i - 1 + 5) =~= s.subrange(i, i + 5));
        lemma_replace_args_keeps_bin(t, rep);
        lemma_occurs_in_suffix(seq![s[0]], replace_all(t, q, rep), b);
    } else {
        // `s` starts with `{bin}`; none of `b`, `i`, `n`, `}` starts `{args}`.
        let s1 = s.skip(1);
        let s2 = s.skip(2);
        let s3 = s.skip(3);
        let s4 = s.skip(4);
        assert(s[2] == s.subrange(0, 5)[2] && s[3] == s.subrange(0, 5)[3] && s[4] == s.subrange(0, 5)[4]);
        assert(s1[0] == 'b' && s2[0] == 'i' && s3[0] == 'n' && s4[0] == '}');
        assert(s1.skip(1) =~= s2 && s2.skip(1) =~= s3 && s3.skip(1) =~= s4 && s4.skip(1) =~= s.skip(5));
        lemma_replace_args_step(s1, rep);
        lemma_replace_args_step(s2, rep);
        lemma_replace_args_step(s3, rep);
        lemma_replace_args_step(s4, rep);
        let tail = replace_all(s.skip(5), q, rep);
        let res = replace_all(s, q, rep);
        assert(res == seq![s[0]] + replace_all(s1, q, rep));
        assert(res =~= seq!['{', 'b', 'i', 'n', '}'] + tail);
        assert(res.subrange(0, 0 + b.len() as int) =~= b);
    }
}

} // verus!

verus! {

proof fn lemma_trim_start_bounds(s: Seq<char>)
    ensures
        exists|a: int| 0 <= a <= s.len() && trim_start_seq(s) == s.skip(a)
            && (forall|j: int| 0 <= j < a ==> is_ws(#[trigger] s[j])),
        trim_start_seq(s).len() > 0 ==> !is_ws(trim_start_seq(s)[0]),
    decreases s.len(),
{
    if s.len() > 0 && is_ws(s[0]) {
        let r = s.drop_first();
        lemma_trim_start_bounds(r);
        let a = choose|a: int| 0 <= a <= r.len() && trim_start_seq(r) == r.skip(a) && (forall|j: int| 0 <= j < a ==> is_ws(#[trigger] r[j]));
        assert(r.skip(a) =~= s.skip(a + 1));
        assert forall|j: int| 0 <= j < a + 1 implies is_ws(#[trigger] s[j]) by {
            if j > 0 {
                assert(s[j] == r[j - 1]);
            }
        }
    } else {
        assert(s.skip(0) =~= s);
    }
}

proof fn lemma_trim_end_bounds(s: Seq<char>)
    ensures
        exists|b: int| 0 <= b <= s.len() && trim_end_seq(s) == s.take(b)
            && (forall|j: int| b <= j < s.len() ==> is_ws(#[trigger] s[j])),
        trim_end_seq(s).len() > 0 ==> !is_ws(trim_end_seq(s).last()),
    decreases s.len(),
{
    if s.len() > 0 && is_ws(s.last()) {
        let r = s.drop_last();
        lemma_trim_end_bounds(r);
        let b = choose|b: int| 0 <= b <= r.len() && trim_end_seq(r) == r.take(b) && (forall|j: int| b <= j < r.len() ==> is_ws(#[trigger] r[j]));
        assert(r.take(b) =~= s.take(b));
        assert forall|j: int| b <= j < s.len() implies is_ws(#[trigger] s[j]) by {
            if j < r.len() {
                assert(s[j] == r[j]);
            }
        }
    } else {
        assert(s.take(s.len() as int) =~= s);
    }
}

/// Trimming keeps a contiguous piece of `s` that neither starts nor ends
/// with whitespace, and drops only whitespace around it.
pub proof fn law_trim(s: Seq<char>)
    ensures
        exists|a: int, b: int| 0 <= a <= b <= s.len() && trim_seq(s) == s.subrange(a, b)
            && (forall|j: int| 0 <= j < a ==> is_ws(#[trigger] s[j])) && (forall|j: int|
            b <= j < s.len() ==> is_ws(#[trigger] s[j])),
        trim_seq(s).len() > 0 ==> !is_ws(trim_seq(s)[0]) && !is_ws(trim_seq(s).last()),
{
    lemma_trim_start_bounds(s);
    let a = choose|a: int| 0 <= a <= s.len() && trim_start_seq(s) == s.skip(a) && (forall|j: int| 0 <= j < a ==> is_ws(#[trigger] s[j]));
    let m = s.skip(a);
    lemma_trim_end_bounds(m);
    let b = choose|b: int| 0 <= b <= m.len() && trim_end_seq(m) == m.take(b) && (forall|j: int| b <= j < m.len() ==> is_ws(#[trigger] m[j]));
    assert(m.take(b) =~= s.subrange(a, a + b));
    assert forall|j: int| a + b <= j < s.len() implies is_ws(#[trigger] s[j]) by {
        assert(s[j] == m[j - a]);
    }
    if trim_seq(s).len() > 0 {
        assert(trim_seq(s)[0] == m[0]);
    }
}

/// Splitting at whitespace gives non-empty pieces without whitespace, and
/// a character of `s` that is not whitespace lies in one of them.
pub proof fn law_split_ws_pieces(s: Seq<char>)
    ensures
        forall|k: int| 0 <= k < split_ws(s).len() ==> (#[trigger] split_ws(s)[k]).len() > 0,
        forall|k: int, j: int| 0 <= k < split_ws(s).len() && 0 <= j < split_ws(s)[k].len() ==> !is_ws(#[trigger] split_ws(s)[k][j]),
        forall|i: int| 0 <= i < s.len() && !is_ws(s[i]) ==> exists|k: int| 0 <= k < split_ws(s).len() && occurs_in(#[trigger] split_ws(s)[k], seq![s[i]]),
    decreases s.len(),
{
    if s.len() > 0 {
        let p = s.drop_last();
        let c = s.last();
        let w = split_ws(p);
        law_split_ws_pieces(p);
        let r = split_ws(s);
        if is_ws(c) {
        } else if p.len() > 0 && !is_ws(p.last()) {
            assert forall|k: int| 0 <= k < r.len() implies (#[trigger] r[k]).len() > 0 by {
                if k < w.len() - 1 { assert(r[k] == w[k]); }
            }
            assert forall|k: int, j: int| 0 <= k < r.len() && 0 <= j < r[k].len() implies !is_ws(#[trigger] r[k][j]) by {
                if k < w.len() - 1 { assert(r[k] == w[k]); } else if j < w[k].len() { assert(r[k][j] == w[k][j]); }
            }
        } else {
            assert forall|k: int| 0 <= k < r.len() implies (#[trigger] r[k]).len() > 0 by {
                if k < w.len() { assert(r[k] == w[k]); }
            }
            assert forall|k: int, j: int| 0 <= k < r.len() && 0 <= j < r[k].len() implies !is_ws(#[trigger] r[k][j]) by {
                if k < w.len() { assert(r[k] == w[k]); }
            }
        }
        assert forall|i: int| 0 <= i < s.len() && !is_ws(s[i]) implies exists|k: int| 0 <= k < r.len() && occurs_in(#[trigger] r[k], seq![s[i]]) by {
            assert forall|j: int| 0 <= j < seq![s[i]].len() implies !is_ws(#[trigger] seq![s[i]][j]) by {}
            assert(s.subrange(i, i + 1) =~= seq![s[i]]);
            lemma_split_ws_keeps(s, seq![s[i]]);
        }
    }
}

} // verus!

verus! {

proof fn lemma_first_newline_bounds(s: Seq<char>)
    ensures
        0 <= first_newline(s) <= s.len(),
        forall|j: int| 0 <= j < first_newline(s) ==> s[j] != '\n',
        first_newline(s) < s.len() ==> s[first_newline(s)] == '\n',
    decreases s.len(),
{
    if s.len() > 0 && s[0] != '\n' {
        let r = s.drop_first();
        lemma_first_newline_bounds(r);
        assert forall|j: int| 0 <= j < first_newline(s) implies s[j] != '\n' by {
            if j > 0 {
                assert(s[j] == r[j - 1]);
            }
        }
    }
}

/// No line holds a line feed; a non-empty text has at least one line, and
/// a text without line feeds is a single line, kept as it is.
pub proof fn law_lines(s: Seq<char>)
    ensures
        forall|k: int, j: int| 0 <= k < lines_seq(s).len() && 0 <= j < lines_seq(s)[k].len() ==> #[trigger] lines_seq(s)[k][j] != '\n',
        s.len() > 0 ==> lines_seq(s).len() > 0,
        s.len() > 0 && (forall|j: int| 0 <= j < s.len() ==> s[j] != '\n') ==> lines_seq(s) == seq![s],
    decreases s.len(),
{
    if s.len() > 0 {
        lemma_first_newline_bounds(s);
        let k0 = first_newline(s);
        if 0 <= k0 < s.len() {
            let rest = s.skip(k0 + 1);
            law_lines(rest);
            let first = strip_cr(s.take(k0));
            let r = lines_seq(s);
            assert(r == seq![first] + lines_seq(rest));
            assert forall|k: int, j: int| 0 <= k < r.len() && 0 <= j < r[k].len() implies #[trigger] r[k][j] != '\n' by {
                if k == 0 {
                    assert(r[0] == first);
                    assert(first[j] == s[j]);
                } else {
                    assert(r[k] == lines_seq(rest)[k - 1]);
                }
            }
        } else {
            assert(k0 == s.len());
            assert(lines_seq(s) == seq![s]);
            assert forall|k: int, j: int| 0 <= k < lines_seq(s).len() && 0 <= j < lines_seq(s)[k].len() implies #[trigger] lines_seq(s)[k][j] != '\n' by {
                assert(lines_seq(s)[k] == s);
            }
        }
        if forall|j: int| 0 <= j < s.len() ==> s[j] != '\n' {
            if k0 < s.len() {
                assert(s[k0] == '\n');
            }
        }
    }
}

} // verus!

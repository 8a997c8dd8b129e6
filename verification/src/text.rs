//! Character-level text utilities: whitespace classification, word splitting,
//! joining, trimming and decimal rendering.

use vstd::prelude::*;

verus! {

/// The characters with the Unicode `White_Space` property.
pub open spec fn is_white_space(c: char) -> bool {
    ||| ('\u{9}' <= c && c <= '\u{d}')
    ||| c == ' '
    ||| c == '\u{85}'
    ||| c == '\u{a0}'
    ||| c == '\u{1680}'
    ||| ('\u{2000}' <= c && c <= '\u{200a}')
    ||| c == '\u{2028}'
    ||| c == '\u{2029}'
    ||| c == '\u{202f}'
    ||| c == '\u{205f}'
    ||| c == '\u{3000}'
}

/// Whether `c` is white space, as `char::is_whitespace` decides it: by the
/// Unicode `White_Space` property.
fn char_is_whitespace(c: char) -> (res: bool)
    ensures
        res == is_white_space(c),
{
    ('\u{9}' <= c && c <= '\u{d}') || c == ' ' || c == '\u{85}' || c == '\u{a0}' || c
        == '\u{1680}' || ('\u{2000}' <= c && c <= '\u{200a}') || c == '\u{2028}' || c
        == '\u{2029}' || c == '\u{202f}' || c == '\u{205f}' || c == '\u{3000}'
}

/// `String::push`: appends one character.
#[verifier::external_body]
pub(crate) fn push_char(s: &mut String, c: char)
    ensures
        final(s)@ == old(s)@.push(c),
{
    s.push(c)
}

/// The characters of a string, in order.
pub fn chars_of(s: &str) -> (res: Vec<char>)
    ensures
        res@ == s@,
{
    let mut v: Vec<char> = Vec::new();
    for c in it: s.chars()
        invariant
            it.seq() == s@,
            v@ == s@.take(it.index() as int),
    {
        v.push(c);
    }
    assert(v@ =~= s@);
    v
}


/// The views of a sequence of strings.
pub open spec fn string_views(v: Seq<String>) -> Seq<Seq<char>> {
    v.map_values(|w: String| w@)
}

/// Left-to-right scan that splits on white space: the words completed so far,
/// and the word being read (empty between words).
pub open spec fn scan_words(s: Seq<char>) -> (Seq<Seq<char>>, Seq<char>)
    decreases s.len(),
{
    if s.len() == 0 {
        (Seq::empty(), Seq::empty())
    } else {
        let (done, cur) = scan_words(s.drop_last());
        if is_white_space(s.last()) {
            if cur.len() > 0 {
                (done.push(cur), Seq::empty())
            } else {
                (done, cur)
            }
        } else {
            (done, cur.push(s.last()))
        }
    }
}

/// The maximal runs of non-white-space characters of `s`, in order
/// (what `str::split_whitespace` yields).
pub open spec fn words(s: Seq<char>) -> Seq<Seq<char>> {
    let (done, cur) = scan_words(s);
    if cur.len() > 0 {
        done.push(cur)
    } else {
        done
    }
}

/// A word: non-empty and free of white space.
pub open spec fn is_word(w: Seq<char>) -> bool {
    w.len() > 0 && forall|i: int| 0 <= i < w.len() ==> !is_white_space(#[trigger] w[i])
}

/// `parts` joined with `sep` between consecutive parts.
pub open spec fn join(parts: Seq<Seq<char>>, sep: Seq<char>) -> Seq<char>
    decreases parts.len(),
{
    if parts.len() == 0 {
        Seq::empty()
    } else if parts.len() == 1 {
        parts[0]
    } else {
        join(parts.drop_last(), sep) + sep + parts.last()
    }
}

/// `s` without its leading white space.
pub open spec fn trim_start(s: Seq<char>) -> Seq<char>
    decreases s.len(),
{
    if s.len() > 0 && is_white_space(s[0]) {
        trim_start(s.drop_first())
    } else {
        s
    }
}

/// `s` without its trailing white space.
pub open spec fn trim_end(s: Seq<char>) -> Seq<char>
    decreases s.len(),
{
    if s.len() > 0 && is_white_space(s.last()) {
        trim_end(s.drop_last())
    } else {
        s
    }
}

/// `s` without leading and trailing white space (what `str::trim` returns).
pub open spec fn trim(s: Seq<char>) -> Seq<char> {
    trim_end(trim_start(s))
}

/// Splits `s` into its words, as `str::split_whitespace` does.
pub fn split_whitespace(s: &str) -> (res: Vec<String>)
    ensures
        string_views(res@) == words(s@),
{
    let mut done: Vec<String> = Vec::new();
    let mut cur = String::new();
    let mut cur_nonempty = false;
    for c in it: s.chars()
        invariant
            it.seq() == s@,
            0 <= it.index() <= s@.len(),
            (string_views(done@), cur@) == scan_words(s@.take(it.index() as int)),
            cur_nonempty == (cur@.len() > 0),
    {
        let ghost i = it.index();
        assert(s@.take(i + 1).drop_last() =~= s@.take(i as int));
        assert(s@.take(i + 1).last() == c);
        if char_is_whitespace(c) {
            if cur_nonempty {
                let ghost before = string_views(done@);
                let ghost w_view = cur@;
                let w = cur;
                done.push(w);
                assert(string_views(done@) =~= before.push(w_view));
                cur = String::new();
                cur_nonempty = false;
            }
        } else {
            push_char(&mut cur, c);
            cur_nonempty = true;
        }
    }
    assert(s@.take(s@.len() as int) =~= s@);
    let ghost before = string_views(done@);
    let ghost w_view = cur@;
    if cur_nonempty {
        done.push(cur);
        assert(string_views(done@) =~= before.push(w_view));
    }
    done
}


/// The words `parts[start..end]` joined with single spaces, as
/// `slice::join(" ")` produces them.
pub fn join_with_spaces(parts: &Vec<String>, start: usize, end: usize) -> (res: String)
    requires
        start <= end <= parts@.len(),
    ensures
        res@ == join(string_views(parts@).subrange(start as int, end as int), seq![' ']),
{
    let ghost views = string_views(parts@);
    let mut res = String::new();
    let mut i = start;
    while i < end
        invariant
            start <= i <= end <= parts@.len(),
            views == string_views(parts@),
            res@ == join(views.subrange(start as int, i as int), seq![' ']),
        decreases end - i,
    {
        assert(views.subrange(start as int, i + 1).drop_last() =~= views.subrange(
            start as int,
            i as int,
        ));
        if i > start {
            push_char(&mut res, ' ');
        }
        res.append(parts[i].as_str());
        i = i + 1;
    }
    res
}

/// Copies `v[start..end]` into a new string.
fn string_of_range(v: &Vec<char>, start: usize, end: usize) -> (res: String)
    requires
        start <= end <= v@.len(),
    ensures
        res@ == v@.subrange(start as int, end as int),
{
    let mut res = String::new();
    let mut i = start;
    while i < end
        invariant
            start <= i <= end <= v@.len(),
            res@ == v@.subrange(start as int, i as int),
        decreases end - i,
    {
        push_char(&mut res, v[i]);
        i = i + 1;
        assert(res@ =~= v@.subrange(start as int, i as int));
    }
    res
}

/// `str::trim`: `s` without leading and trailing white space.
pub fn trim_str(s: &str) -> (res: String)
    ensures
        res@ == trim(s@),
{
    let v = chars_of(s);
    let n = v.len();
    let mut i: usize = 0;
    assert(s@.skip(0) =~= s@);
    while i < n && char_is_whitespace(v[i])
        invariant
            v@ == s@,
            n == v@.len(),
            i <= n,
            trim_start(s@) == trim_start(s@.skip(i as int)),
        decreases n - i,
    {
        assert(s@.skip(i as int).drop_first() =~= s@.skip(i + 1));
        i = i + 1;
    }
    assert(trim_start(s@) =~= s@.skip(i as int)) by {
        if i == n {
            assert(s@.skip(i as int).len() == 0);
        }
    }
    let ghost u = s@.skip(i as int);
    let mut j: usize = n;
    assert(u.take(j - i) =~= u);
    while j > i && char_is_whitespace(v[j - 1])
        invariant
            v@ == s@,
            n == v@.len(),
            i <= j <= n,
            u == s@.skip(i as int),
            trim_end(u) == trim_end(u.take(j - i)),
        decreases j,
    {
        assert(u.take(j - i).drop_last() =~= u.take(j - 1 - i));
        j = j - 1;
    }
    assert(trim_end(u) =~= u.take(j - i)) by {
        if j == i {
            assert(u.take(j - i).len() == 0);
        }
    }
    assert(u.take(j - i) =~= v@.subrange(i as int, j as int));
    string_of_range(&v, i, j)
}

/// Whether `s` is empty once trimmed (`s.trim().is_empty()`).
pub fn is_blank(s: &str) -> (res: bool)
    ensures
        res == (trim(s@).len() == 0),
{
    let t = trim_str(s);
    let v = chars_of(t.as_str());
    v.len() == 0
}

/// The character of a decimal digit.
pub open spec fn digit_char(d: nat) -> char {
    (48 + d) as char
}

/// The decimal rendering of `n`, most significant digit first, without
/// leading zeros.
pub open spec fn decimal(n: nat) -> Seq<char>
    decreases n,
{
    if n < 10 {
        seq![digit_char(n)]
    } else {
        decimal(n / 10).push(digit_char(n % 10))
    }
}

/// The decimal rendering of a signed integer, with a leading `-` when negative.
pub open spec fn signed_decimal(n: int) -> Seq<char> {
    if n < 0 {
        seq!['-'] + decimal((-n) as nat)
    } else {
        decimal(n as nat)
    }
}

/// Appends the decimal rendering of `n` to `out`.
fn push_decimal(out: &mut String, n: u64)
    ensures
        final(out)@ == old(out)@ + decimal(n as nat),
    decreases n,
{
    if n >= 10 {
        push_decimal(out, n / 10);
    }
    let d: u8 = (n % 10) as u8;
    let c = (48u8 + d) as char;
    assert(c == digit_char((n % 10) as nat));
    push_char(out, c);
    assert(final(out)@ =~= old(out)@ + decimal(n as nat));
}

/// The decimal rendering of an unsigned integer (as `{}` formats it).
pub fn format_usize(n: usize) -> (res: String)
    ensures
        res@ == decimal(n as nat),
{
    let mut s = String::new();
    push_decimal(&mut s, n as u64);
    assert(s@ =~= decimal(n as nat));
    s
}

/// The decimal rendering of a signed integer (as `{}` formats it).
pub fn format_i64(n: i64) -> (res: String)
    ensures
        res@ == signed_decimal(n as int),
{
    let mut s = String::new();
    if n < 0 {
        push_char(&mut s, '-');
        let m: u64 = ((-(n + 1)) as u64) + 1;
        push_decimal(&mut s, m);
    } else {
        push_decimal(&mut s, n as u64);
    }
    assert(s@ =~= signed_decimal(n as int));
    s
}


/// Scanning further characters none of which is white space extends the
/// current word by them.
proof fn lemma_scan_extend_word(s: Seq<char>, t: Seq<char>)
    requires
        forall|i: int| 0 <= i < t.len() ==> !is_white_space(#[trigger] t[i]),
    ensures
        scan_words(s + t) == (scan_words(s).0, scan_words(s).1 + t),
    decreases t.len(),
{
    if t.len() == 0 {
        assert(s + t =~= s);
        assert(scan_words(s).1 + t =~= scan_words(s).1);
    } else {
        let t0 = t.drop_last();
        lemma_scan_extend_word(s, t0);
        assert((s + t).drop_last() =~= s + t0);
        assert((s + t).last() == t.last());
        assert(scan_words(s).1 + t0 + seq![t.last()] =~= scan_words(s).1 + t);
    }
}

/// Joining words with single spaces and splitting the result on white space
/// gives the words back.
pub proof fn lemma_words_of_joined(ws: Seq<Seq<char>>)
    requires
        forall|i: int| 0 <= i < ws.len() ==> is_word(#[trigger] ws[i]),
    ensures
        words(join(ws, seq![' '])) == ws,
{
    if ws.len() == 0 {
        assert(words(join(ws, seq![' '])) =~= ws);
    } else {
        lemma_scan_joined_prefix(ws, ws.len() as nat);
        assert(ws.take(ws.len() as int) =~= ws);
        assert(ws.take(ws.len() - 1).push(ws[ws.len() - 1]) =~= ws);
    }
}

/// Scanning the first `k` words joined with spaces leaves the first `k - 1`
/// words completed and the `k`-th being read.
proof fn lemma_scan_joined_prefix(ws: Seq<Seq<char>>, k: nat)
    requires
        forall|i: int| 0 <= i < ws.len() ==> is_word(#[trigger] ws[i]),
        1 <= k <= ws.len(),
    ensures
        scan_words(join(ws.take(k as int), seq![' '])) == (ws.take(k - 1), ws[k - 1]),
    decreases k,
{
    let sep = seq![' '];
    assert(is_word(ws[k - 1]));
    if k == 1 {
        assert(join(ws.take(1), sep) == ws[0]);
        let e: Seq<char> = Seq::empty();
        lemma_scan_extend_word(e, ws[0]);
        assert(e + ws[0] =~= ws[0]);
        assert(scan_words(e).1 + ws[0] =~= ws[0]);
        assert(ws.take(0) =~= Seq::<Seq<char>>::empty());
    } else {
        lemma_scan_joined_prefix(ws, (k - 1) as nat);
        let prev = join(ws.take(k - 1), sep);
        assert(ws.take(k as int).drop_last() =~= ws.take(k - 1));
        assert(join(ws.take(k as int), sep) == prev + sep + ws[k - 1]);
        let with_space = prev + sep;
        assert(with_space.drop_last() =~= prev);
        assert(is_word(ws[k - 2]));
        assert(scan_words(with_space) == (ws.take(k - 2).push(ws[k - 2]), Seq::<char>::empty()));
        assert(ws.take(k - 2).push(ws[k - 2]) =~= ws.take(k - 1));
        lemma_scan_extend_word(with_space, ws[k - 1]);
        assert(Seq::<char>::empty() + ws[k - 1] =~= ws[k - 1]);
    }
}


/// Every completed word of a scan is a word, and the word being read holds no
/// white space.
proof fn lemma_scan_words_are_words(s: Seq<char>)
    ensures
        forall|i: int|
            0 <= i < scan_words(s).0.len() ==> is_word(#[trigger] scan_words(s).0[i]),
        forall|i: int|
            0 <= i < scan_words(s).1.len() ==> !is_white_space(#[trigger] scan_words(s).1[i]),
    decreases s.len(),
{
    if s.len() > 0 {
        lemma_scan_words_are_words(s.drop_last());
        let (done, cur) = scan_words(s.drop_last());
        if is_white_space(s.last()) {
            if cur.len() > 0 {
                assert forall|i: int| 0 <= i < done.push(cur).len() implies is_word(
                    #[trigger] done.push(cur)[i],
                ) by {
                    if i < done.len() {
                        assert(done.push(cur)[i] == done[i]);
                    }
                }
            }
        } else {
            assert forall|i: int| 0 <= i < cur.push(s.last()).len() implies !is_white_space(
                #[trigger] cur.push(s.last())[i],
            ) by {
                if i < cur.len() {
                    assert(cur.push(s.last())[i] == cur[i]);
                }
            }
        }
    }
}

/// Every element of `words(s)` is a word.
pub proof fn lemma_words_are_words(s: Seq<char>)
    ensures
        forall|i: int| 0 <= i < words(s).len() ==> is_word(#[trigger] words(s)[i]),
{
    lemma_scan_words_are_words(s);
    let (done, cur) = scan_words(s);
    if cur.len() > 0 {
        assert forall|i: int| 0 <= i < words(s).len() implies is_word(#[trigger] words(s)[i]) by {
            if i < done.len() {
                assert(done.push(cur)[i] == done[i]);
            }
        }
    }
}


/// Whether two strings hold the same characters.
pub fn str_equal(a: &str, b: &str) -> (res: bool)
    ensures
        res == (a@ == b@),
{
    let x = chars_of(a);
    let y = chars_of(b);
    if x.len() != y.len() {
        return false;
    }
    let mut i: usize = 0;
    while i < x.len()
        invariant
            x@ == a@,
            y@ == b@,
            x@.len() == y@.len(),
            i <= x@.len(),
            forall|k: int| 0 <= k < i ==> x@[k] == y@[k],
        decreases x@.len() - i,
    {
        if x[i] != y[i] {
            return false;
        }
        i = i + 1;
    }
    assert(x@ =~= y@);
    true
}

/// A new string holding the characters of `s`.
pub fn string_from(s: &str) -> (res: String)
    ensures
        res@ == s@,
{
    let mut res = String::new();
    res.append(s);
    res
}


/// The pieces of `s` between occurrences of `sep` (what `str::split` with a
/// character yields): one more piece than there are separators.
pub open spec fn split_on(s: Seq<char>, sep: char) -> Seq<Seq<char>>
    decreases s.len(),
{
    if s.len() == 0 {
        seq![Seq::empty()]
    } else {
        let init = split_on(s.drop_last(), sep);
        if s.last() == sep {
            init.push(Seq::empty())
        } else {
            init.update(init.len() - 1, init.last().push(s.last()))
        }
    }
}

/// `split_on` always yields at least one piece.
pub proof fn lemma_split_on_nonempty(s: Seq<char>, sep: char)
    ensures
        split_on(s, sep).len() >= 1,
    decreases s.len(),
{
    if s.len() > 0 {
        lemma_split_on_nonempty(s.drop_last(), sep);
    }
}

/// Splits `s` at every occurrence of `sep`, as `str::split(sep)` does.
pub fn split_char(s: &str, sep: char) -> (res: Vec<String>)
    ensures
        string_views(res@) == split_on(s@, sep),
{
    let mut parts: Vec<String> = Vec::new();
    let mut cur = String::new();
    assert(s@.take(0) =~= Seq::<char>::empty());
    assert(string_views(parts@).push(cur@) =~= split_on(s@.take(0), sep));
    for c in it: s.chars()
        invariant
            it.seq() == s@,
            0 <= it.index() <= s@.len(),
            string_views(parts@).push(cur@) == split_on(s@.take(it.index() as int), sep),
    {
        let ghost i = it.index();
        assert(s@.take(i + 1).drop_last() =~= s@.take(i as int));
        assert(s@.take(i + 1).last() == c);
        let ghost before = string_views(parts@);
        let ghost cur_view = cur@;
        if c == sep {
            let piece = cur;
            parts.push(piece);
            cur = String::new();
            assert(string_views(parts@) =~= before.push(cur_view));
            assert(string_views(parts@).push(cur@) =~= before.push(cur_view).push(Seq::empty()));
        } else {
            push_char(&mut cur, c);
            assert(string_views(parts@).push(cur@) =~= before.push(cur_view).update(
                before.len() as int,
                cur_view.push(c),
            ));
        }
    }
    assert(s@.take(s@.len() as int) =~= s@);
    let ghost before = string_views(parts@);
    let ghost cur_view = cur@;
    parts.push(cur);
    assert(string_views(parts@) =~= before.push(cur_view));
    parts
}

/// Splitting after text free of the separator extends the last piece by it.
pub proof fn lemma_split_on_extend(s: Seq<char>, t: Seq<char>, sep: char)
    requires
        forall|i: int| 0 <= i < t.len() ==> #[trigger] t[i] != sep,
    ensures
        split_on(s + t, sep) == split_on(s, sep).update(
            split_on(s, sep).len() - 1,
            split_on(s, sep).last() + t,
        ),
    decreases t.len(),
{
    lemma_split_on_nonempty(s, sep);
    if t.len() == 0 {
        assert(s + t =~= s);
        assert(split_on(s, sep).last() + t =~= split_on(s, sep).last());
        assert(split_on(s, sep).update(split_on(s, sep).len() - 1, split_on(s, sep).last())
            =~= split_on(s, sep));
    } else {
        let t0 = t.drop_last();
        lemma_split_on_extend(s, t0, sep);
        assert((s + t).drop_last() =~= s + t0);
        assert((s + t).last() == t.last());
        assert(split_on(s, sep).last() + t0 + seq![t.last()] =~= split_on(s, sep).last() + t);
        let p = split_on(s, sep);
        assert(p.update(p.len() - 1, p.last() + t0).update(p.len() - 1, p.last() + t0 + seq![t.last()])
            =~= p.update(p.len() - 1, p.last() + t));
        assert(p.update(p.len() - 1, p.last() + t0).last() == p.last() + t0);
        assert((p.last() + t0).push(t.last()) =~= p.last() + t0 + seq![t.last()]);
    }
}

/// Three pieces free of `sep`, joined by `sep`, split back into those pieces.
pub proof fn lemma_split_three(a: Seq<char>, b: Seq<char>, c: Seq<char>, sep: char)
    requires
        forall|i: int| 0 <= i < a.len() ==> #[trigger] a[i] != sep,
        forall|i: int| 0 <= i < b.len() ==> #[trigger] b[i] != sep,
        forall|i: int| 0 <= i < c.len() ==> #[trigger] c[i] != sep,
    ensures
        split_on(a + seq![sep] + b + seq![sep] + c, sep) == seq![a, b, c],
{
    let e: Seq<char> = Seq::empty();
    lemma_split_on_extend(e, a, sep);
    assert(e + a =~= a);
    assert(seq![e].update(0, e + a) =~= seq![a]);
    let s1 = a + seq![sep];
    assert(s1.drop_last() =~= a);
    assert(split_on(s1, sep) =~= seq![a, e]);
    lemma_split_on_extend(s1, b, sep);
    assert(seq![a, e].update(1, e + b) =~= seq![a, b]);
    let s2 = s1 + b + seq![sep];
    assert(s2.drop_last() =~= s1 + b);
    assert(split_on(s2, sep) =~= seq![a, b, e]);
    lemma_split_on_extend(s2, c, sep);
    assert(seq![a, b, e].update(2, e + c) =~= seq![a, b, c]);
    assert(a + seq![sep] + b + seq![sep] + c =~= s2 + c);
}

} // verus!

//! Character-sequence helpers shared by the text transformations.
//!
//! Every transformation in this crate works on `Vec<char>` internally and is
//! specified over `Seq<char>`, the view of `str` and `String`.

use vstd::prelude::*;

verus! {

/// Appends one character to a `String` (`String::push`): the view grows by
/// exactly that character.
#[verifier::external_body]
pub(crate) fn string_push(s: &mut String, c: char)
    ensures
        final(s)@ == old(s)@.push(c),
{
    s.push(c)
}

/// The characters of `s`, in order.
pub fn to_chars(s: &str) -> (v: Vec<char>)
    ensures
        v@ == s@,
{
    let mut v: Vec<char> = Vec::new();
    for c in it: s.chars()
        invariant
            v@ == it.seq().take(it.index()),
            it.seq() == s@,
    {
        v.push(c);
    }
    v
}

/// The string made of the characters of `v`, in order.
pub fn from_chars(v: &Vec<char>) -> (s: String)
    ensures
        s@ == v@,
{
    let mut s = String::new();
    let mut i: usize = 0;
    while i < v.len()
        invariant
            i <= v.len(),
            s@ == v@.take(i as int),
        decreases v.len() - i,
    {
        string_push(&mut s, v[i]);
        i += 1;
    }
    s
}

/// Unicode `White_Space`: what `char::is_whitespace` and the `\s` class accept.
pub open spec fn is_space(c: char) -> bool {
    let n = c as u32;
    (0x09 <= n <= 0x0D) || n == 0x20 || n == 0x85 || n == 0xA0 || n == 0x1680 || (0x2000 <= n
        <= 0x200A) || n == 0x2028 || n == 0x2029 || n == 0x202F || n == 0x205F || n == 0x3000
}

/// Whether `c` is white space.
pub fn is_whitespace(c: char) -> (b: bool)
    ensures
        b == is_space(c),
{
    let n: u32 = c as u32;
    (0x09 <= n && n <= 0x0D) || n == 0x20 || n == 0x85 || n == 0xA0 || n == 0x1680 || (0x2000 <= n
        && n <= 0x200A) || n == 0x2028 || n == 0x2029 || n == 0x202F || n == 0x205F || n == 0x3000
}

/// `c` is an ASCII lower-case letter.
pub open spec fn is_ascii_lower(c: char) -> bool {
    0x61 <= c as u32 <= 0x7A
}

/// `c` is an ASCII upper-case letter.
pub open spec fn is_ascii_upper(c: char) -> bool {
    0x41 <= c as u32 <= 0x5A
}

/// `c` is an ASCII character.
pub open spec fn is_ascii_char(c: char) -> bool {
    (c as u32) < 0x80
}

/// An ASCII character in upper case: a lower-case letter as its upper-case
/// letter, any other character as it is.
pub open spec fn ascii_upper(c: char) -> char {
    if is_ascii_lower(c) {
        ((c as u8) - 0x20) as u8 as char
    } else {
        c
    }
}

/// An ASCII character in lower case: an upper-case letter as its lower-case
/// letter, any other character as it is.
pub open spec fn ascii_lower(c: char) -> char {
    if is_ascii_upper(c) {
        ((c as u8) + 0x20) as u8 as char
    } else {
        c
    }
}

/// Every character of the text is ASCII.
pub open spec fn is_ascii_text(s: Seq<char>) -> bool {
    forall|i: int| 0 <= i < s.len() ==> is_ascii_char(#[trigger] s[i])
}

/// An ASCII text with each of its characters in lower case.
pub open spec fn ascii_lower_text(s: Seq<char>) -> Seq<char> {
    Seq::new(s.len(), |i: int| ascii_lower(s[i]))
}

/// `pat` occurs in `s` starting at index `i`.
pub open spec fn has_at(s: Seq<char>, i: int, pat: Seq<char>) -> bool {
    0 <= i && i + pat.len() <= s.len() && s.subrange(i, i + pat.len()) == pat
}

/// Whether `pat` occurs in `s` at index `i`.
pub fn has_at_exec(s: &Vec<char>, i: usize, pat: &Vec<char>) -> (b: bool)
    ensures
        b == has_at(s@, i as int, pat@),
{
    if i > s.len() || pat.len() > s.len() - i {
        return false;
    }
    let mut k: usize = 0;
    while k < pat.len()
        invariant
            i + pat.len() <= s.len(),
            k <= pat.len(),
            s@.subrange(i as int, i + k) == pat@.take(k as int),
        decreases pat.len() - k,
    {
        if s[i + k] != pat[k] {
            proof {
                if has_at(s@, i as int, pat@) {
                    assert(s@.subrange(i as int, i + pat.len())[k as int] == pat@[k as int]);
                }
            }
            return false;
        }
        proof {
            assert(s@.subrange(i as int, i + k + 1) =~= s@.subrange(i as int, i + k).push(
                s@[i + k],
            ));
            assert(pat@.take(k + 1) =~= pat@.take(k as int).push(pat@[k as int]));
        }
        k += 1;
    }
    proof {
        assert(pat@.take(pat.len() as int) =~= pat@);
    }
    true
}

/// `pat` is a prefix of `s`.
pub open spec fn starts_with(s: Seq<char>, pat: Seq<char>) -> bool {
    has_at(s, 0, pat)
}

/// `pat` is a suffix of `s`.
pub open spec fn ends_with(s: Seq<char>, pat: Seq<char>) -> bool {
    pat.len() <= s.len() && has_at(s, s.len() - pat.len(), pat)
}

/// Whether `pat` is a suffix of `s`.
pub fn ends_with_exec(s: &Vec<char>, pat: &Vec<char>) -> (b: bool)
    ensures
        b == ends_with(s@, pat@),
{
    if pat.len() > s.len() {
        false
    } else {
        has_at_exec(s, s.len() - pat.len(), pat)
    }
}

/// The first index at or after `from` where `pat` occurs in `s`, if any.
pub open spec fn find_from(s: Seq<char>, pat: Seq<char>, from: int) -> Option<int>
    decreases s.len() + 1 - from,
{
    if from < 0 || from + pat.len() > s.len() {
        None
    } else if has_at(s, from, pat) {
        Some(from)
    } else {
        find_from(s, pat, from + 1)
    }
}

/// `find_from` returns the leftmost occurrence at or after `from`.
pub proof fn lemma_find_from(s: Seq<char>, pat: Seq<char>, from: int)
    requires
        0 <= from,
    ensures
        match find_from(s, pat, from) {
            Some(k) => from <= k && has_at(s, k, pat) && forall|j: int|
                from <= j < k ==> !has_at(s, j, pat),
            None => forall|j: int| from <= j ==> !has_at(s, j, pat),
        },
    decreases s.len() + 1 - from,
{
    if from + pat.len() > s.len() {
    } else if has_at(s, from, pat) {
    } else {
        lemma_find_from(s, pat, from + 1);
    }
}

/// The first index at or after `from` where `pat` occurs in `s`.
pub fn find_from_exec(s: &Vec<char>, pat: &Vec<char>, from: usize) -> (r: Option<usize>)
    ensures
        match r {
            Some(k) => find_from(s@, pat@, from as int) == Some(k as int),
            None => find_from(s@, pat@, from as int) is None,
        },
{
    let mut i: usize = from;
    while i <= s.len() && pat.len() <= s.len() - i
        invariant
            from <= i,
            find_from(s@, pat@, from as int) == find_from(s@, pat@, i as int),
        decreases s.len() + 1 - i,
    {
        if has_at_exec(s, i, pat) {
            return Some(i);
        }
        if i == s.len() {
            proof {
                assert(s@.subrange(i as int, i as int) =~= pat@);
            }
            return None;
        }
        i += 1;
    }
    None
}

/// `pat` occurs somewhere in `s`.
pub open spec fn contains(s: Seq<char>, pat: Seq<char>) -> bool {
    exists|i: int| has_at(s, i, pat)
}

/// Whether `pat` occurs in `s`.
pub fn contains_exec(s: &Vec<char>, pat: &Vec<char>) -> (b: bool)
    ensures
        b == contains(s@, pat@),
{
    let r = find_from_exec(s, pat, 0);
    proof {
        lemma_find_from(s@, pat@, 0);
    }
    r.is_some()
}

/// The views of a vector of character vectors.
pub open spec fn rows(v: Seq<Vec<char>>) -> Seq<Seq<char>> {
    Seq::new(v.len(), |i: int| v[i]@)
}

/// The rows of a list with one more vector.
pub proof fn lemma_rows_push(v: Seq<Vec<char>>, x: Vec<char>)
    ensures
        rows(v.push(x)) == rows(v).push(x@),
{
    assert(rows(v.push(x)) =~= rows(v).push(x@));
}

/// Appends a row.
pub fn push_row(out: &mut Vec<Vec<char>>, row: Vec<char>)
    ensures
        rows(final(out)@) == rows(old(out)@).push(row@),
{
    proof {
        lemma_rows_push(out@, row);
    }
    out.push(row);
}

/// Copies `s[a..b]`.
pub fn subvec(s: &Vec<char>, a: usize, b: usize) -> (r: Vec<char>)
    requires
        a <= b <= s.len(),
    ensures
        r@ == s@.subrange(a as int, b as int),
{
    let mut r: Vec<char> = Vec::new();
    let mut i: usize = a;
    while i < b
        invariant
            a <= i <= b <= s.len(),
            r@ == s@.subrange(a as int, i as int),
        decreases b - i,
    {
        r.push(s[i]);
        proof {
            assert(s@.subrange(a as int, i + 1) =~= s@.subrange(a as int, i as int).push(s@[i as int]));
        }
        i += 1;
    }
    r
}

/// Appends the characters of `v` to `out`.
pub fn append_chars(out: &mut Vec<char>, v: &Vec<char>)
    ensures
        final(out)@ == old(out)@ + v@,
{
    let mut i: usize = 0;
    while i < v.len()
        invariant
            i <= v.len(),
            out@ == old(out)@ + v@.take(i as int),
        decreases v.len() - i,
    {
        out.push(v[i]);
        proof {
            assert(v@.take(i + 1) =~= v@.take(i as int).push(v@[i as int]));
            assert(old(out)@ + v@.take(i + 1) =~= (old(out)@ + v@.take(i as int)).push(v@[i as int]));
        }
        i += 1;
    }
    proof {
        assert(v@.take(v.len() as int) =~= v@);
    }
}

/// Appends the characters of a string slice to `out`.
pub fn append_str(out: &mut Vec<char>, s: &str)
    ensures
        final(out)@ == old(out)@ + s@,
{
    let v = to_chars(s);
    append_chars(out, &v);
}

/// The pieces of `s` between occurrences of `sep`, scanning from `i` with the
/// current piece starting at `start`.
pub open spec fn split_scan(s: Seq<char>, sep: char, start: int, i: int) -> Seq<Seq<char>>
    decreases s.len() - i,
{
    if i < 0 || i >= s.len() {
        seq![s.subrange(start, s.len() as int)]
    } else if s[i] == sep {
        seq![s.subrange(start, i)] + split_scan(s, sep, i + 1, i + 1)
    } else {
        split_scan(s, sep, start, i + 1)
    }
}

/// The pieces of `s` between occurrences of `sep`; never empty, as `str::split`
/// with a character pattern.
pub open spec fn split(s: Seq<char>, sep: char) -> Seq<Seq<char>> {
    split_scan(s, sep, 0, 0)
}

/// Splits `s` at every `sep`.
pub fn split_exec(s: &Vec<char>, sep: char) -> (r: Vec<Vec<char>>)
    ensures
        rows(r@) == split(s@, sep),
        r.len() >= 1,
{
    let mut r: Vec<Vec<char>> = Vec::new();
    let mut start: usize = 0;
    let mut i: usize = 0;
    while i < s.len()
        invariant
            start <= i <= s.len(),
            split(s@, sep) == rows(r@) + split_scan(s@, sep, start as int, i as int),
        decreases s.len() - i,
    {
        if s[i] == sep {
            let piece = subvec(s, start, i);
            proof {
                lemma_rows_push(r@, piece);
                assert(rows(r@).push(piece@) + split_scan(s@, sep, i + 1, i + 1) =~= rows(r@) + (
                seq![piece@] + split_scan(s@, sep, i + 1, i + 1)));
            }
            r.push(piece);
            start = i + 1;
        }
        i += 1;
    }
    let piece = subvec(s, start, s.len());
    proof {
        lemma_rows_push(r@, piece);
        assert(rows(r@).push(piece@) =~= rows(r@) + seq![piece@]);
    }
    r.push(piece);
    r
}

/// The pieces joined with `sep` between neighbours (`[T]::join`).
pub open spec fn join(parts: Seq<Seq<char>>, sep: Seq<char>) -> Seq<char>
    decreases parts.len(),
{
    if parts.len() == 0 {
        Seq::<char>::empty()
    } else if parts.len() == 1 {
        parts[0]
    } else {
        join(parts.drop_last(), sep) + sep + parts.last()
    }
}

/// Joins the pieces with `sep` between neighbours.
pub fn join_exec(parts: &Vec<Vec<char>>, sep: &Vec<char>) -> (r: Vec<char>)
    ensures
        r@ == join(rows(parts@), sep@),
{
    let mut r: Vec<char> = Vec::new();
    let mut i: usize = 0;
    while i < parts.len()
        invariant
            i <= parts.len(),
            r@ == join(rows(parts@).take(i as int), sep@),
        decreases parts.len() - i,
    {
        proof {
            let next = rows(parts@).take(i + 1);
            assert(next.drop_last() =~= rows(parts@).take(i as int));
            assert(next.last() == parts@[i as int]@);
            if i == 0 {
                assert(r@ =~= Seq::<char>::empty());
                assert(Seq::<char>::empty() + parts@[0]@ =~= parts@[0]@);
            }
        }
        if i > 0 {
            append_chars(&mut r, sep);
        }
        append_chars(&mut r, &parts[i]);
        i += 1;
    }
    proof {
        assert(rows(parts@).take(parts.len() as int) =~= rows(parts@));
    }
    r
}

/// Joining a list that has a first piece: the piece, the separator, and the
/// rest joined.
pub proof fn lemma_join_prepend(x: Seq<char>, rest: Seq<Seq<char>>, sep: Seq<char>)
    requires
        rest.len() > 0,
    ensures
        join(seq![x] + rest, sep) == x + sep + join(rest, sep),
    decreases rest.len(),
{
    let all = seq![x] + rest;
    assert(all.drop_last() =~= seq![x] + rest.drop_last());
    assert(all.last() == rest.last());
    if rest.len() == 1 {
        assert(all.drop_last() =~= seq![x]);
        assert(join(all.drop_last(), sep) == x);
    } else {
        lemma_join_prepend(x, rest.drop_last(), sep);
        assert(x + sep + join(rest.drop_last(), sep) + sep + rest.last() =~= x + sep + (join(
            rest.drop_last(),
            sep,
        ) + sep + rest.last()));
    }
}

/// Splitting gives at least one piece.
pub proof fn lemma_split_scan_nonempty(s: Seq<char>, sep: char, start: int, i: int)
    ensures
        split_scan(s, sep, start, i).len() > 0,
    decreases s.len() - i,
{
    if 0 <= i < s.len() && s[i] != sep {
        lemma_split_scan_nonempty(s, sep, start, i + 1);
    }
}

proof fn lemma_split_scan_join(s: Seq<char>, sep: char, start: int, i: int)
    requires
        0 <= start <= i <= s.len(),
    ensures
        join(split_scan(s, sep, start, i), seq![sep]) == s.subrange(start, s.len() as int),
    decreases s.len() - i,
{
    if i >= s.len() {
    } else if s[i] == sep {
        let rest = split_scan(s, sep, i + 1, i + 1);
        lemma_split_scan_nonempty(s, sep, i + 1, i + 1);
        lemma_split_scan_join(s, sep, i + 1, i + 1);
        lemma_join_prepend(s.subrange(start, i), rest, seq![sep]);
        assert(s.subrange(start, i) + seq![sep] + s.subrange(i + 1, s.len() as int) =~= s.subrange(
            start,
            s.len() as int,
        ));
    } else {
        lemma_split_scan_join(s, sep, start, i + 1);
    }
}

/// Splitting at a separator and joining with it again gives the text back.
pub proof fn lemma_split_join(s: Seq<char>, sep: char)
    ensures
        join(split(s, sep), seq![sep]) == s,
{
    lemma_split_scan_join(s, sep, 0, 0);
    assert(s.subrange(0, s.len() as int) =~= s);
}

/// The character `c` does not occur in `s`.
pub open spec fn has_no_char(s: Seq<char>, c: char) -> bool {
    forall|i: int| 0 <= i < s.len() ==> #[trigger] s[i] != c
}

proof fn lemma_split_scan_shift(pre: Seq<char>, t: Seq<char>, sep: char, start: int, i: int)
    requires
        0 <= start <= i <= t.len(),
    ensures
        split_scan(pre + t, sep, pre.len() + start, pre.len() + i) == split_scan(t, sep, start, i),
    decreases t.len() - i,
{
    let s = pre + t;
    let n = pre.len() as int;
    if i >= t.len() {
        assert(s.subrange(n + start, s.len() as int) =~= t.subrange(start, t.len() as int));
    } else {
        assert(s[n + i] == t[i]);
        if t[i] == sep {
            assert(s.subrange(n + start, n + i) =~= t.subrange(start, i));
            lemma_split_scan_shift(pre, t, sep, i + 1, i + 1);
        } else {
            lemma_split_scan_shift(pre, t, sep, start, i + 1);
        }
    }
}

proof fn lemma_split_scan_pass(s: Seq<char>, sep: char, i: int, k: int)
    requires
        0 <= i <= k <= s.len(),
        forall|j: int| i <= j < k ==> s[j] != sep,
    ensures
        split_scan(s, sep, 0, i) == split_scan(s, sep, 0, k),
    decreases k - i,
{
    if i < k {
        lemma_split_scan_pass(s, sep, i + 1, k);
    }
}

/// Joining pieces that do not hold the separator and splitting the text
/// again gives the pieces back.
pub proof fn lemma_join_split(parts: Seq<Seq<char>>, sep: char)
    requires
        parts.len() > 0,
        forall|i: int| 0 <= i < parts.len() ==> has_no_char(#[trigger] parts[i], sep),
    ensures
        split(join(parts, seq![sep]), sep) == parts,
    decreases parts.len(),
{
    let x = parts[0];
    assert(has_no_char(x, sep));
    if parts.len() == 1 {
        lemma_split_scan_pass(x, sep, 0, x.len() as int);
        assert(x.subrange(0, x.len() as int) =~= x);
        assert(seq![x] =~= parts);
    } else {
        let rest = parts.skip(1);
        assert(seq![x] + rest =~= parts);
        lemma_join_prepend(x, rest, seq![sep]);
        assert forall|i: int| 0 <= i < rest.len() implies has_no_char(#[trigger] rest[i], sep) by {
            assert(rest[i] == parts[i + 1]);
        }
        lemma_join_split(rest, sep);
        let tail = join(rest, seq![sep]);
        let pre = x + seq![sep];
        let s = pre + tail;
        assert(s == join(parts, seq![sep]));
        assert forall|j: int| 0 <= j < x.len() implies s[j] != sep by {
            assert(s[j] == x[j]);
        }
        lemma_split_scan_pass(s, sep, 0, x.len() as int);
        assert(s[x.len() as int] == sep);
        assert(s.subrange(0, x.len() as int) =~= x);
        lemma_split_scan_shift(pre, tail, sep, 0, 0);
        let next = x.len() as int + 1;
        assert(pre.len() == next);
        assert(split_scan(s, sep, 0, x.len() as int) == seq![x] + split_scan(s, sep, next, next));
    }
}

/// Two texts with the same pieces are the same text.
pub proof fn lemma_split_injective(a: Seq<char>, b: Seq<char>, sep: char)
    requires
        split(a, sep) == split(b, sep),
    ensures
        a == b,
{
    lemma_split_join(a, sep);
    lemma_split_join(b, sep);
}

/// `s` without its leading white space (`str::trim_start`).
pub open spec fn trim_start(s: Seq<char>) -> Seq<char>
    decreases s.len(),
{
    if s.len() > 0 && is_space(s[0]) {
        trim_start(s.skip(1))
    } else {
        s
    }
}

/// `s` without its trailing white space (`str::trim_end`).
pub open spec fn trim_end(s: Seq<char>) -> Seq<char>
    decreases s.len(),
{
    if s.len() > 0 && is_space(s.last()) {
        trim_end(s.drop_last())
    } else {
        s
    }
}

/// `s` without leading and trailing white space (`str::trim`).
pub open spec fn trim(s: Seq<char>) -> Seq<char> {
    trim_end(trim_start(s))
}

/// Copies `s` without its leading white space.
pub fn trim_start_exec(s: &Vec<char>) -> (r: Vec<char>)
    ensures
        r@ == trim_start(s@),
{
    let mut i: usize = 0;
    proof {
        assert(s@.skip(0) =~= s@);
    }
    while i < s.len() && is_whitespace(s[i])
        invariant
            i <= s.len(),
            trim_start(s@) == trim_start(s@.skip(i as int)),
        decreases s.len() - i,
    {
        proof {
            assert(s@.skip(i as int).skip(1) =~= s@.skip(i + 1));
        }
        i += 1;
    }
    proof {
        assert(s@.skip(i as int) =~= s@.subrange(i as int, s.len() as int));
    }
    subvec(s, i, s.len())
}

/// Copies `s` without its trailing white space.
pub fn trim_end_exec(s: &Vec<char>) -> (r: Vec<char>)
    ensures
        r@ == trim_end(s@),
{
    let mut n: usize = s.len();
    proof {
        assert(s@.take(s.len() as int) =~= s@);
    }
    while n > 0 && is_whitespace(s[n - 1])
        invariant
            n <= s.len(),
            trim_end(s@) == trim_end(s@.take(n as int)),
        decreases n,
    {
        proof {
            assert(s@.take(n as int).drop_last() =~= s@.take(n - 1));
        }
        n -= 1;
    }
    proof {
        assert(s@.take(s.len() as int) =~= s@);
        assert(s@.take(n as int) =~= s@.subrange(0, n as int));
    }
    subvec(s, 0, n)
}

/// Copies `s` without leading and trailing white space.
pub fn trim_exec(s: &Vec<char>) -> (r: Vec<char>)
    ensures
        r@ == trim(s@),
{
    let t = trim_start_exec(s);
    trim_end_exec(&t)
}

/// Whether two texts are the same.
pub fn chars_eq(a: &Vec<char>, b: &Vec<char>) -> (r: bool)
    ensures
        r == (a@ == b@),
{
    if a.len() != b.len() {
        return false;
    }
    let r = has_at_exec(a, 0, b);
    proof {
        assert(a@.subrange(0, a.len() as int) =~= a@);
    }
    r
}

/// A line as `str::lines` hands it out: the text before its `\n`, without a
/// `\r` that stood directly before the `\n`.
pub open spec fn strip_cr(s: Seq<char>) -> Seq<char> {
    if s.len() > 0 && s.last() == '\r' {
        s.drop_last()
    } else {
        s
    }
}

/// The lines of `s` from index `i` on, the current line starting at `start`.
pub open spec fn lines_scan(s: Seq<char>, start: int, i: int) -> Seq<Seq<char>>
    decreases s.len() - i,
{
    if i < 0 || i >= s.len() {
        if start < s.len() {
            seq![s.subrange(start, s.len() as int)]
        } else {
            Seq::<Seq<char>>::empty()
        }
    } else if s[i] == '\n' {
        seq![strip_cr(s.subrange(start, i))] + lines_scan(s, i + 1, i + 1)
    } else {
        lines_scan(s, start, i + 1)
    }
}

/// The lines of `s` as `str::lines` gives them: split at `\n`, a `\r` before
/// it dropped, and no empty last line after a final `\n`.
pub open spec fn lines(s: Seq<char>) -> Seq<Seq<char>> {
    lines_scan(s, 0, 0)
}

/// The lines of `s`.
pub fn lines_exec(s: &Vec<char>) -> (r: Vec<Vec<char>>)
    ensures
        rows(r@) == lines(s@),
{
    let mut r: Vec<Vec<char>> = Vec::new();
    let mut start: usize = 0;
    let mut i: usize = 0;
    proof {
        assert(rows(r@) + lines_scan(s@, 0, 0) =~= lines_scan(s@, 0, 0));
    }
    while i < s.len()
        invariant
            start <= i <= s.len(),
            lines(s@) == rows(r@) + lines_scan(s@, start as int, i as int),
        decreases s.len() - i,
    {
        if s[i] == '\n' {
            let end = if i > start && s[i - 1] == '\r' {
                i - 1
            } else {
                i
            };
            let piece = subvec(s, start, end);
            proof {
                let raw = s@.subrange(start as int, i as int);
                if i > start {
                    assert(raw.last() == s@[i - 1]);
                    assert(raw.drop_last() =~= s@.subrange(start as int, i - 1));
                }
                assert(piece@ == strip_cr(raw));
                lemma_rows_push(r@, piece);
                assert(rows(r@).push(piece@) + lines_scan(s@, i + 1, i + 1) =~= rows(r@) + (
                seq![piece@] + lines_scan(s@, i + 1, i + 1)));
            }
            r.push(piece);
            start = i + 1;
        }
        i += 1;
    }
    if start < s.len() {
        let piece = subvec(s, start, s.len());
        proof {
            lemma_rows_push(r@, piece);
            assert(rows(r@).push(piece@) =~= rows(r@) + seq![piece@]);
        }
        r.push(piece);
    } else {
        proof {
            assert(rows(r@) + Seq::<Seq<char>>::empty() =~= rows(r@));
        }
    }
    r
}

/// The character of a decimal digit.
pub open spec fn digit_char(d: int) -> char {
    if d == 0 {
        '0'
    } else if d == 1 {
        '1'
    } else if d == 2 {
        '2'
    } else if d == 3 {
        '3'
    } else if d == 4 {
        '4'
    } else if d == 5 {
        '5'
    } else if d == 6 {
        '6'
    } else if d == 7 {
        '7'
    } else if d == 8 {
        '8'
    } else {
        '9'
    }
}

/// The decimal numeral of `n`, without leading zeros.
pub open spec fn decimal(n: nat) -> Seq<char>
    decreases n,
{
    if n < 10 {
        seq![digit_char(n as int)]
    } else {
        decimal(n / 10).push(digit_char((n % 10) as int))
    }
}

fn digit_exec(d: u64) -> (c: char)
    requires
        d < 10,
    ensures
        c == digit_char(d as int),
{
    if d == 0 {
        '0'
    } else if d == 1 {
        '1'
    } else if d == 2 {
        '2'
    } else if d == 3 {
        '3'
    } else if d == 4 {
        '4'
    } else if d == 5 {
        '5'
    } else if d == 6 {
        '6'
    } else if d == 7 {
        '7'
    } else if d == 8 {
        '8'
    } else {
        '9'
    }
}

/// The decimal numeral of `n`.
pub fn decimal_exec(n: u64) -> (r: Vec<char>)
    ensures
        r@ == decimal(n as nat),
    decreases n,
{
    if n < 10 {
        let mut r: Vec<char> = Vec::new();
        r.push(digit_exec(n));
        assert(r@ =~= seq![digit_char(n as int)]);
        r
    } else {
        let mut r = decimal_exec(n / 10);
        r.push(digit_exec(n % 10));
        r
    }
}

/// The index behind the white space that begins at `i`.
pub open spec fn skip_space(s: Seq<char>, i: int) -> int
    decreases s.len() - i,
{
    if 0 <= i < s.len() && is_space(s[i]) {
        skip_space(s, i + 1)
    } else {
        i
    }
}

/// The index behind the white space that begins at `i`.
pub fn skip_space_exec(s: &Vec<char>, i: usize) -> (r: usize)
    requires
        i <= s.len(),
    ensures
        r as int == skip_space(s@, i as int),
        i <= r <= s.len(),
{
    let mut j: usize = i;
    while j < s.len() && is_whitespace(s[j])
        invariant
            i <= j <= s.len(),
            skip_space(s@, i as int) == skip_space(s@, j as int),
        decreases s.len() - j,
    {
        j += 1;
    }
    j
}

/// The first index at or after `from` that holds `c`; the length of `s`
/// where there is none.
pub open spec fn index_of(s: Seq<char>, c: char, from: int) -> int
    decreases s.len() - from,
{
    if from < 0 || from >= s.len() {
        s.len() as int
    } else if s[from] == c {
        from
    } else {
        index_of(s, c, from + 1)
    }
}

/// The first index at or after `from` that holds `c`, or the length of `s`.
pub fn index_of_exec(s: &Vec<char>, c: char, from: usize) -> (r: usize)
    requires
        from <= s.len(),
    ensures
        r as int == index_of(s@, c, from as int),
        from <= r <= s.len(),
{
    let mut j: usize = from;
    while j < s.len()
        invariant
            from <= j <= s.len(),
            index_of(s@, c, from as int) == index_of(s@, c, j as int),
        decreases s.len() - j,
    {
        if s[j] == c {
            return j;
        }
        j += 1;
    }
    j
}

/// `s` without the occurrences of `c` that it begins with.
pub open spec fn trim_char_start(s: Seq<char>, c: char) -> Seq<char>
    decreases s.len(),
{
    if s.len() > 0 && s[0] == c {
        trim_char_start(s.skip(1), c)
    } else {
        s
    }
}

/// `s` without the occurrences of `c` that it ends with.
pub open spec fn trim_char_end(s: Seq<char>, c: char) -> Seq<char>
    decreases s.len(),
{
    if s.len() > 0 && s.last() == c {
        trim_char_end(s.drop_last(), c)
    } else {
        s
    }
}

/// `s` without the occurrences of `c` at both ends (`str::trim_matches`).
pub open spec fn trim_char(s: Seq<char>, c: char) -> Seq<char> {
    trim_char_end(trim_char_start(s, c), c)
}

/// Copies `s` without the occurrences of `c` that it begins with.
pub fn trim_char_start_exec(s: &Vec<char>, c: char) -> (r: Vec<char>)
    ensures
        r@ == trim_char_start(s@, c),
{
    let mut i: usize = 0;
    proof {
        assert(s@.skip(0) =~= s@);
    }
    while i < s.len() && s[i] == c
        invariant
            i <= s.len(),
            trim_char_start(s@, c) == trim_char_start(s@.skip(i as int), c),
        decreases s.len() - i,
    {
        proof {
            assert(s@.skip(i as int).skip(1) =~= s@.skip(i + 1));
        }
        i += 1;
    }
    proof {
        assert(s@.skip(i as int) =~= s@.subrange(i as int, s.len() as int));
    }
    subvec(s, i, s.len())
}

/// Copies `s` without the occurrences of `c` that it ends with.
pub fn trim_char_end_exec(s: &Vec<char>, c: char) -> (r: Vec<char>)
    ensures
        r@ == trim_char_end(s@, c),
{
    let mut n: usize = s.len();
    proof {
        assert(s@.take(s.len() as int) =~= s@);
    }
    while n > 0 && s[n - 1] == c
        invariant
            n <= s.len(),
            trim_char_end(s@, c) == trim_char_end(s@.take(n as int), c),
        decreases n,
    {
        proof {
            assert(s@.take(n as int).drop_last() =~= s@.take(n - 1));
        }
        n -= 1;
    }
    proof {
        assert(s@.take(n as int) =~= s@.subrange(0, n as int));
    }
    subvec(s, 0, n)
}

/// Copies `s` without the occurrences of `c` at both ends.
pub fn trim_char_exec(s: &Vec<char>, c: char) -> (r: Vec<char>)
    ensures
        r@ == trim_char(s@, c),
{
    trim_char_end_exec(&trim_char_start_exec(s, c), c)
}

/// `s` without every copy of `pat` that it begins with
/// (`str::trim_start_matches` with a string pattern).
pub open spec fn trim_prefixes(s: Seq<char>, pat: Seq<char>) -> Seq<char>
    decreases s.len(),
{
    if pat.len() > 0 && starts_with(s, pat) {
        trim_prefixes(s.skip(pat.len() as int), pat)
    } else {
        s
    }
}

/// Copies `s` without every copy of `pat` that it begins with.
pub fn trim_prefixes_exec(s: &Vec<char>, pat: &Vec<char>) -> (r: Vec<char>)
    ensures
        r@ == trim_prefixes(s@, pat@),
{
    if pat.len() == 0 {
        return s.clone();
    }
    let mut i: usize = 0;
    proof {
        assert(s@.skip(0) =~= s@);
    }
    while has_at_exec(s, i, pat)
        invariant
            i <= s.len(),
            pat.len() > 0,
            trim_prefixes(s@, pat@) == trim_prefixes(s@.skip(i as int), pat@),
        decreases s.len() - i,
    {
        proof {
            let rest = s@.skip(i as int);
            assert(rest.subrange(0, pat@.len() as int) =~= s@.subrange(i as int, i + pat@.len()));
            assert(rest.skip(pat@.len() as int) =~= s@.skip(i + pat@.len()));
        }
        i += pat.len();
    }
    proof {
        let rest = s@.skip(i as int);
        if i + pat@.len() <= s@.len() {
            assert(rest.subrange(0, pat@.len() as int) =~= s@.subrange(i as int, i + pat@.len()));
        }
        assert(rest =~= s@.subrange(i as int, s.len() as int));
    }
    subvec(s, i, s.len())
}

/// The texts before and behind the first occurrence of `pat`
/// (`str::split_once`).
pub open spec fn split_once(s: Seq<char>, pat: Seq<char>) -> Option<(Seq<char>, Seq<char>)> {
    match find_from(s, pat, 0) {
        Some(k) => Some((s.subrange(0, k), s.subrange(k + pat.len(), s.len() as int))),
        None => None,
    }
}

/// The texts before and behind the first occurrence of `pat`.
pub fn split_once_exec(s: &Vec<char>, pat: &Vec<char>) -> (r: Option<(Vec<char>, Vec<char>)>)
    ensures
        match r {
            Some((a, b)) => split_once(s@, pat@) == Some((a@, b@)),
            None => split_once(s@, pat@) is None,
        },
{
    match find_from_exec(s, pat, 0) {
        Some(k) => {
            proof {
                lemma_find_from(s@, pat@, 0);
            }
            assert(k + pat.len() <= s.len());
            Some((subvec(s, 0, k), subvec(s, k + pat.len(), s.len())))
        },
        None => None,
    }
}

/// `c` is an ASCII decimal digit.
pub open spec fn is_digit(c: char) -> bool {
    0x30 <= c as u32 <= 0x39
}

/// The number that a digit string denotes.
pub open spec fn digits_value(d: Seq<char>) -> nat
    decreases d.len(),
{
    if d.len() == 0 {
        0
    } else {
        digits_value(d.drop_last()) * 10 + (d.last() as u32 - 0x30) as nat
    }
}

/// Every character is a digit.
pub open spec fn all_digits(d: Seq<char>) -> bool {
    forall|i: int| 0 <= i < d.len() ==> is_digit(#[trigger] d[i])
}

/// The digits of a numeral: what follows its `+` sign, if it has one.
pub open spec fn unsigned_digits(s: Seq<char>) -> Seq<char> {
    if s.len() > 0 && s[0] == '+' {
        s.skip(1)
    } else {
        s
    }
}

/// The value of `s` read as a `u32` (`str::parse::<u32>`): an optional `+`
/// and one or more digits, whose value fits.
pub open spec fn parse_u32(s: Seq<char>) -> Option<u32> {
    let d = unsigned_digits(s);
    if d.len() > 0 && all_digits(d) && digits_value(d) <= u32::MAX {
        Some(digits_value(d) as u32)
    } else {
        None
    }
}

proof fn lemma_digits_value_grows(d: Seq<char>, n: int)
    requires
        0 <= n <= d.len(),
        all_digits(d),
    ensures
        digits_value(d.take(n)) <= digits_value(d),
    decreases d.len() - n,
{
    if n < d.len() {
        lemma_digits_value_grows(d, n + 1);
        assert(d.take(n + 1).drop_last() =~= d.take(n));
        assert(is_digit(d[n]));
    } else {
        assert(d.take(n) =~= d);
    }
}

/// Reads `s` as a `u32`.
pub fn parse_u32_exec(s: &Vec<char>) -> (r: Option<u32>)
    ensures
        r == parse_u32(s@),
{
    let start: usize = if s.len() > 0 && s[0] == '+' {
        1
    } else {
        0
    };
    let ghost d = unsigned_digits(s@);
    proof {
        assert(d =~= s@.subrange(start as int, s.len() as int));
    }
    if start == s.len() {
        return None;
    }
    let mut value: u64 = 0;
    let mut i: usize = start;
    proof {
        assert(d.take(0) =~= Seq::<char>::empty());
    }
    while i < s.len()
        invariant
            start <= i <= s.len(),
            d == unsigned_digits(s@),
            d == s@.subrange(start as int, s.len() as int),
            all_digits(d.take(i - start)),
            value == digits_value(d.take(i - start)),
            value <= u32::MAX,
        decreases s.len() - i,
    {
        let c = s[i] as u32;
        assert(d[i - start] == s@[i as int]);
        if c < 0x30 || c > 0x39 {
            assert(!is_digit(d[i - start]));
            return None;
        }
        let ghost before = d.take(i - start);
        let ghost next = d.take(i - start + 1);
        proof {
            assert(next.drop_last() =~= before);
            assert(next.last() == d[i - start]);
            assert forall|j: int| 0 <= j < next.len() implies is_digit(#[trigger] next[j]) by {
                if j < before.len() {
                    assert(next[j] == before[j]);
                }
            }
        }
        value = value * 10 + (c - 0x30) as u64;
        if value > u32::MAX as u64 {
            proof {
                if all_digits(d) {
                    lemma_digits_value_grows(d, i - start + 1);
                }
            }
            return None;
        }
        i += 1;
    }
    proof {
        assert(d.take(d.len() as int) =~= d);
    }
    Some(value as u32)
}

} // verus!

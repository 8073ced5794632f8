//! Character-level text operations shared by the converters: moving between
//! strings and character sequences, splitting on whitespace, joining,
//! substitution and canonical decomposition.
use unicode_normalization::UnicodeNormalization;
use vstd::prelude::*;

verus! {

/// `String::push` appends one character to the end of the string.
pub assume_specification[ String::push ](s: &mut String, c: char)
    ensures
        final(s)@ == old(s)@.push(c),
;

/// The canonical decomposition (Unicode normalisation form D) of a text.
pub uninterp spec fn nfd_of(text: Seq<char>) -> Seq<char>;

/// Calls `UnicodeNormalization::nfd` of the `unicode-normalization` crate on
/// the string and collects the characters that it yields. The contract only
/// gives that sequence its name, `nfd_of`; nothing else is claimed of it.
#[verifier::external_body]
pub(crate) fn decompose(text: &str) -> (r: Vec<char>)
    ensures
        r@ == nfd_of(text@),
{
    text.nfd().collect()
}

/// Whether a character has the Unicode property `White_Space`.
pub open spec fn is_space(c: char) -> bool {
    let n = c as u32;
    ||| 0x09 <= n <= 0x0d
    ||| n == 0x20
    ||| n == 0x85
    ||| n == 0xa0
    ||| n == 0x1680
    ||| 0x2000 <= n <= 0x200a
    ||| n == 0x2028
    ||| n == 0x2029
    ||| n == 0x202f
    ||| n == 0x205f
    ||| n == 0x3000
}

/// Whether a character is one of the ten ASCII digits.
pub open spec fn is_digit(c: char) -> bool {
    '0' <= c <= '9'
}

/// Tells whether a character is whitespace.
pub fn is_space_char(c: char) -> (b: bool)
    ensures
        b == is_space(c),
{
    let n: u32 = c as u32;
    (0x09 <= n && n <= 0x0d) || n == 0x20 || n == 0x85 || n == 0xa0 || n == 0x1680 || (0x2000 <= n
        && n <= 0x200a) || n == 0x2028 || n == 0x2029 || n == 0x202f || n == 0x205f || n == 0x3000
}

/// Tells whether a character is an ASCII digit.
pub fn is_digit_char(c: char) -> (b: bool)
    ensures
        b == is_digit(c),
{
    '0' <= c && c <= '9'
}

/// The characters of a string, in order.
pub fn chars_of(s: &str) -> (r: Vec<char>)
    ensures
        r@ == s@,
{
    let mut out: Vec<char> = Vec::new();
    for c in it: s.chars()
        invariant
            out@ == it.seq().take(it.index()),
            it.seq() == s@,
    {
        out.push(c);
    }
    out
}

/// The string made of the given characters, in order.
pub fn string_of(v: &Vec<char>) -> (r: String)
    ensures
        r@ == v@,
{
    let mut out = String::new();
    let mut i: usize = 0;
    while i < v.len()
        invariant
            i <= v.len(),
            out@ == v@.take(i as int),
        decreases v.len() - i,
    {
        out.push(v[i]);
        i += 1;
        assert(v@.take(i as int) =~= v@.take(i - 1).push(v@[i - 1]));
    }
    assert(v@.take(v.len() as int) =~= v@);
    out
}

/// A copy of a character vector.
pub fn copy_chars(v: &Vec<char>) -> (r: Vec<char>)
    ensures
        r@ == v@,
{
    let mut out: Vec<char> = Vec::new();
    let mut i: usize = 0;
    while i < v.len()
        invariant
            i <= v.len(),
            out@ == v@.take(i as int),
        decreases v.len() - i,
    {
        out.push(v[i]);
        i += 1;
        assert(v@.take(i as int) =~= v@.take(i - 1).push(v@[i - 1]));
    }
    assert(v@.take(v.len() as int) =~= v@);
    out
}

/// Appends all of `tail` to `out`.
pub fn append_chars(out: &mut Vec<char>, tail: &Vec<char>)
    ensures
        final(out)@ == old(out)@ + tail@,
{
    let mut i: usize = 0;
    while i < tail.len()
        invariant
            i <= tail.len(),
            out@ == old(out)@ + tail@.take(i as int),
        decreases tail.len() - i,
    {
        out.push(tail[i]);
        i += 1;
        assert(tail@.take(i as int) =~= tail@.take(i - 1).push(tail@[i - 1]));
        assert(out@ =~= old(out)@ + tail@.take(i as int));
    }
    assert(tail@.take(tail.len() as int) =~= tail@);
}

/// Whether two character vectors hold the same text.
pub fn same_chars(a: &Vec<char>, b: &Vec<char>) -> (r: bool)
    ensures
        r == (a@ == b@),
{
    if a.len() != b.len() {
        return false;
    }
    let mut i: usize = 0;
    while i < a.len()
        invariant
            i <= a.len(),
            a.len() == b.len(),
            forall|j: int| 0 <= j < i ==> a@[j] == b@[j],
        decreases a.len() - i,
    {
        if a[i] != b[i] {
            return false;
        }
        i += 1;
    }
    assert(a@ =~= b@);
    true
}

/// Whether `text` has `pat` at position `at`.
pub open spec fn occurs_at(text: Seq<char>, pat: Seq<char>, at: int) -> bool {
    0 <= at && at + pat.len() <= text.len() && text.subrange(at, at + pat.len()) == pat
}

/// Tells whether `text` has `pat` at position `at`.
pub fn matches_at(text: &Vec<char>, pat: &Vec<char>, at: usize) -> (r: bool)
    ensures
        r == occurs_at(text@, pat@, at as int),
{
    if at > text.len() || pat.len() > text.len() - at {
        return false;
    }
    let mut i: usize = 0;
    while i < pat.len()
        invariant
            i <= pat.len(),
            at + pat.len() <= text.len(),
            forall|j: int| 0 <= j < i ==> text@[at + j] == pat@[j],
        decreases pat.len() - i,
    {
        if text[at + i] != pat[i] {
            assert(text@.subrange(at as int, at + pat.len())[i as int] != pat@[i as int]);
            return false;
        }
        i += 1;
    }
    assert(text@.subrange(at as int, at + pat.len()) =~= pat@);
    true
}

/// Whether `text` ends with `suffix`.
pub open spec fn ends_with(text: Seq<char>, suffix: Seq<char>) -> bool {
    occurs_at(text, suffix, text.len() - suffix.len())
}

/// Whether `text` starts with `prefix`.
pub open spec fn starts_with(text: Seq<char>, prefix: Seq<char>) -> bool {
    occurs_at(text, prefix, 0)
}

/// `text` with every occurrence of the non-empty pattern `pat`, found from
/// left to right without overlap, replaced by `rep`.
pub open spec fn replace_all(text: Seq<char>, pat: Seq<char>, rep: Seq<char>) -> Seq<char>
    decreases text.len(),
{
    if pat.len() == 0 || text.len() == 0 {
        text
    } else if occurs_at(text, pat, 0) {
        rep + replace_all(text.skip(pat.len() as int), pat, rep)
    } else {
        seq![text[0]] + replace_all(text.skip(1), pat, rep)
    }
}

/// Replaces every occurrence of a pattern, from left to right.
pub fn replace(text: &Vec<char>, pat: &Vec<char>, rep: &Vec<char>) -> (r: Vec<char>)
    ensures
        r@ == replace_all(text@, pat@, rep@),
{
    if pat.len() == 0 {
        return copy_chars(text);
    }
    let mut out: Vec<char> = Vec::new();
    let mut i: usize = 0;
    assert(text@.skip(0) =~= text@);
    while i < text.len()
        invariant
            i <= text.len(),
            pat.len() > 0,
            out@ + replace_all(text@.skip(i as int), pat@, rep@) == replace_all(text@, pat@, rep@),
        decreases text.len() - i,
    {
        let ghost rest = text@.skip(i as int);
        let hit = matches_at(text, pat, i);
        proof {
            if i + pat.len() <= text.len() {
                assert(rest.subrange(0, pat.len() as int) =~= text@.subrange(
                    i as int,
                    i + pat.len(),
                ));
            }
        }
        assert(hit == occurs_at(rest, pat@, 0));
        if hit {
            let ghost before = out@;
            append_chars(&mut out, rep);
            assert(rest.skip(pat.len() as int) =~= text@.skip(i + pat.len()));
            assert(out@ + replace_all(text@.skip(i + pat.len()), pat@, rep@) =~= before
                + replace_all(rest, pat@, rep@));
            i += pat.len();
        } else {
            let ghost before = out@;
            out.push(text[i]);
            assert(rest.skip(1) =~= text@.skip(i + 1));
            assert(out@ + replace_all(text@.skip(i + 1), pat@, rep@) =~= before + replace_all(
                rest,
                pat@,
                rep@,
            ));
            i += 1;
        }
    }
    assert(out@ + Seq::<char>::empty() =~= out@);
    out
}

/// The texts held by a vector of character vectors.
pub open spec fn rows(v: Seq<Vec<char>>) -> Seq<Seq<char>> {
    v.map_values(|x: Vec<char>| x@)
}

/// The words closed so far, with the open one closed too where it is not
/// empty.
pub open spec fn closed_words(cur: Seq<char>, done: Seq<Seq<char>>) -> Seq<Seq<char>> {
    if cur.len() > 0 {
        done.push(cur)
    } else {
        done
    }
}

/// The scan behind `words`: `done` holds the words already closed and `cur`
/// the characters of the word that is open at position `at`.
pub open spec fn words_from(text: Seq<char>, at: int, cur: Seq<char>, done: Seq<Seq<char>>) -> Seq<
    Seq<char>,
>
    decreases text.len() - at,
{
    if at < 0 || at >= text.len() {
        closed_words(cur, done)
    } else if is_space(text[at]) {
        words_from(text, at + 1, Seq::empty(), closed_words(cur, done))
    } else {
        words_from(text, at + 1, cur.push(text[at]), done)
    }
}

/// The maximal runs of non-whitespace characters of a text, in order.
pub open spec fn words(text: Seq<char>) -> Seq<Seq<char>> {
    words_from(text, 0, Seq::empty(), Seq::empty())
}

/// A text that is not empty and holds no whitespace.
pub open spec fn is_word(w: Seq<char>) -> bool {
    w.len() > 0 && forall|i: int| 0 <= i < w.len() ==> !is_space(#[trigger] w[i])
}

proof fn lemma_words_from_are_words(
    text: Seq<char>,
    at: int,
    cur: Seq<char>,
    done: Seq<Seq<char>>,
)
    requires
        0 <= at <= text.len(),
        forall|i: int| 0 <= i < cur.len() ==> !is_space(#[trigger] cur[i]),
        forall|k: int| 0 <= k < done.len() ==> is_word(#[trigger] done[k]),
    ensures
        forall|k: int|
            0 <= k < words_from(text, at, cur, done).len() ==> is_word(
                #[trigger] words_from(text, at, cur, done)[k],
            ),
    decreases text.len() - at,
{
    let closed = closed_words(cur, done);
    assert forall|k: int| 0 <= k < closed.len() implies is_word(#[trigger] closed[k]) by {
        if k < done.len() {
            assert(closed[k] == done[k]);
        }
    }
    let all = words_from(text, at, cur, done);
    if at >= text.len() {
        assert(all == closed);
    } else if is_space(text[at]) {
        lemma_words_from_are_words(text, at + 1, Seq::empty(), closed);
        assert(all == words_from(text, at + 1, Seq::empty(), closed));
    } else {
        let longer = cur.push(text[at]);
        assert forall|i: int| 0 <= i < longer.len() implies !is_space(#[trigger] longer[i]) by {
            if i < cur.len() {
                assert(longer[i] == cur[i]);
            }
        }
        lemma_words_from_are_words(text, at + 1, longer, done);
        assert(all == words_from(text, at + 1, longer, done));
    }
}

/// Every word of a text is a word: it is not empty and holds no whitespace.
pub proof fn lemma_words_are_words(text: Seq<char>)
    ensures
        forall|k: int| 0 <= k < words(text).len() ==> is_word(#[trigger] words(text)[k]),
{
    lemma_words_from_are_words(text, 0, Seq::empty(), Seq::empty());
}

/// Splits a text into its words.
pub fn split_words(text: &Vec<char>) -> (r: Vec<Vec<char>>)
    ensures
        rows(r@) == words(text@),
{
    let mut done: Vec<Vec<char>> = Vec::new();
    let mut cur: Vec<char> = Vec::new();
    let mut i: usize = 0;
    assert(rows(done@) =~= Seq::<Seq<char>>::empty());
    while i < text.len()
        invariant
            i <= text.len(),
            words_from(text@, i as int, cur@, rows(done@)) == words(text@),
        decreases text.len() - i,
    {
        let c = text[i];
        if is_space_char(c) {
            if cur.len() > 0 {
                let ghost before = rows(done@);
                let ghost word = cur@;
                done.push(cur);
                cur = Vec::new();
                assert(rows(done@) =~= before.push(word));
            }
            assert(cur@ =~= Seq::<char>::empty());
        } else {
            cur.push(c);
        }
        i += 1;
    }
    if cur.len() > 0 {
        let ghost before = rows(done@);
        let ghost word = cur@;
        done.push(cur);
        assert(rows(done@) =~= before.push(word));
    }
    done
}

/// The parts in order, with `sep` between every two neighbours.
pub open spec fn join(parts: Seq<Seq<char>>, sep: Seq<char>) -> Seq<char>
    decreases parts.len(),
{
    if parts.len() == 0 {
        Seq::empty()
    } else if parts.len() == 1 {
        parts[0]
    } else {
        join(parts.drop_last(), sep) + sep + parts.last()
    }
}

/// Joins the parts with a separator between every two neighbours.
pub fn join_rows(parts: &Vec<Vec<char>>, sep: &Vec<char>) -> (r: Vec<char>)
    ensures
        r@ == join(rows(parts@), sep@),
{
    let mut out: Vec<char> = Vec::new();
    let mut i: usize = 0;
    assert(rows(parts@).take(0) =~= Seq::<Seq<char>>::empty());
    while i < parts.len()
        invariant
            i <= parts.len(),
            out@ == join(rows(parts@).take(i as int), sep@),
        decreases parts.len() - i,
    {
        let ghost before = rows(parts@).take(i as int);
        let ghost after = rows(parts@).take(i + 1);
        assert(after.drop_last() =~= before);
        assert(after.last() == parts@[i as int]@);
        if i > 0 {
            append_chars(&mut out, sep);
        }
        append_chars(&mut out, &parts[i]);
        assert(out@ =~= join(after, sep@));
        i += 1;
    }
    assert(rows(parts@).take(parts.len() as int) =~= rows(parts@));
    out
}

/// The open word and the closed words once the scan has read the text from
/// position `at` to its end.
pub open spec fn scan_end(text: Seq<char>, at: int, cur: Seq<char>, done: Seq<Seq<char>>) -> (
    Seq<char>,
    Seq<Seq<char>>,
)
    decreases text.len() - at,
{
    if at < 0 || at >= text.len() {
        (cur, done)
    } else if is_space(text[at]) {
        scan_end(text, at + 1, Seq::empty(), closed_words(cur, done))
    } else {
        scan_end(text, at + 1, cur.push(text[at]), done)
    }
}

proof fn lemma_words_from_scan_end(text: Seq<char>, at: int, cur: Seq<char>, done: Seq<Seq<char>>)
    requires
        0 <= at <= text.len(),
    ensures
        words_from(text, at, cur, done) == closed_words(
            scan_end(text, at, cur, done).0,
            scan_end(text, at, cur, done).1,
        ),
    decreases text.len() - at,
{
    if at < text.len() {
        if is_space(text[at]) {
            lemma_words_from_scan_end(text, at + 1, Seq::empty(), closed_words(cur, done));
        } else {
            lemma_words_from_scan_end(text, at + 1, cur.push(text[at]), done);
        }
    }
}

proof fn lemma_scan_end_push(
    text: Seq<char>,
    c: char,
    at: int,
    cur: Seq<char>,
    done: Seq<Seq<char>>,
)
    requires
        0 <= at <= text.len(),
    ensures
        scan_end(text.push(c), at, cur, done) == if is_space(c) {
            (
                Seq::<char>::empty(),
                closed_words(scan_end(text, at, cur, done).0, scan_end(text, at, cur, done).1),
            )
        } else {
            (scan_end(text, at, cur, done).0.push(c), scan_end(text, at, cur, done).1)
        },
    decreases text.len() - at,
{
    let longer = text.push(c);
    if at < text.len() {
        assert(longer[at] == text[at]);
        if is_space(text[at]) {
            lemma_scan_end_push(text, c, at + 1, Seq::empty(), closed_words(cur, done));
        } else {
            lemma_scan_end_push(text, c, at + 1, cur.push(text[at]), done);
        }
    } else {
        assert(longer[at] == c);
        assert(scan_end(longer, at + 1, Seq::empty(), closed_words(cur, done)) == (
            Seq::<char>::empty(),
            closed_words(cur, done),
        ));
        assert(scan_end(longer, at + 1, cur.push(c), done) == (cur.push(c), done));
    }
}

proof fn lemma_scan_end_word(text: Seq<char>, w: Seq<char>)
    requires
        forall|i: int| 0 <= i < w.len() ==> !is_space(#[trigger] w[i]),
    ensures
        scan_end(text + w, 0, Seq::empty(), Seq::empty()) == (
            scan_end(text, 0, Seq::empty(), Seq::empty()).0 + w,
            scan_end(text, 0, Seq::empty(), Seq::empty()).1,
        ),
    decreases w.len(),
{
    let start = scan_end(text, 0, Seq::empty(), Seq::empty());
    if w.len() == 0 {
        assert(text + w =~= text);
        assert(start.0 + w =~= start.0);
    } else {
        let front = w.drop_last();
        assert forall|i: int| 0 <= i < front.len() implies !is_space(#[trigger] front[i]) by {
            assert(front[i] == w[i]);
        }
        assert(!is_space(w[w.len() - 1]));
        lemma_scan_end_word(text, front);
        assert(text + w =~= (text + front).push(w.last()));
        lemma_scan_end_push(text + front, w.last(), 0, Seq::empty(), Seq::empty());
        assert((start.0 + front).push(w.last()) =~= start.0 + w);
    }
}

proof fn lemma_scan_end_of_joined(parts: Seq<Seq<char>>)
    requires
        parts.len() > 0,
        forall|k: int| 0 <= k < parts.len() ==> is_word(#[trigger] parts[k]),
    ensures
        scan_end(join(parts, seq![' ']), 0, Seq::empty(), Seq::empty()) == (
            parts.last(),
            parts.drop_last(),
        ),
    decreases parts.len(),
{
    let sep = seq![' '];
    let last = parts.last();
    assert(is_word(parts[parts.len() - 1]));
    if parts.len() == 1 {
        assert(Seq::<char>::empty() + last =~= last);
        lemma_scan_end_word(Seq::empty(), last);
        assert(parts.drop_last() =~= Seq::<Seq<char>>::empty());
        assert(Seq::<char>::empty() + last =~= last);
    } else {
        let front = parts.drop_last();
        assert forall|k: int| 0 <= k < front.len() implies is_word(#[trigger] front[k]) by {
            assert(front[k] == parts[k]);
        }
        lemma_scan_end_of_joined(front);
        let head = join(front, sep);
        assert(head + sep =~= head.push(' '));
        lemma_scan_end_push(head, ' ', 0, Seq::empty(), Seq::empty());
        assert(is_word(front[front.len() - 1]));
        assert(front.drop_last().push(front.last()) =~= front);
        lemma_scan_end_word(head.push(' '), last);
        assert(Seq::<char>::empty() + last =~= last);
    }
}

/// Splitting is the inverse of joining: the words of a text made of words
/// with one space between them are those words.
pub proof fn lemma_words_of_joined_words(parts: Seq<Seq<char>>)
    requires
        forall|k: int| 0 <= k < parts.len() ==> is_word(#[trigger] parts[k]),
    ensures
        words(join(parts, seq![' '])) == parts,
{
    let text = join(parts, seq![' ']);
    lemma_words_from_scan_end(text, 0, Seq::empty(), Seq::empty());
    if parts.len() == 0 {
        assert(parts =~= Seq::<Seq<char>>::empty());
    } else {
        lemma_scan_end_of_joined(parts);
        assert(is_word(parts[parts.len() - 1]));
        assert(parts.drop_last().push(parts.last()) =~= parts);
    }
}

/// The text without the whitespace at its start.
pub open spec fn trim_start(text: Seq<char>) -> Seq<char>
    decreases text.len(),
{
    if text.len() > 0 && is_space(text[0]) {
        trim_start(text.drop_first())
    } else {
        text
    }
}

/// The text without the whitespace at its end.
pub open spec fn trim_end(text: Seq<char>) -> Seq<char>
    decreases text.len(),
{
    if text.len() > 0 && is_space(text.last()) {
        trim_end(text.drop_last())
    } else {
        text
    }
}

/// The text without the whitespace at its start and at its end.
pub open spec fn trimmed(text: Seq<char>) -> Seq<char> {
    trim_end(trim_start(text))
}

/// Takes the whitespace off both ends of a text.
pub fn trim(text: &Vec<char>) -> (r: Vec<char>)
    ensures
        r@ == trimmed(text@),
{
    let mut from: usize = 0;
    assert(text@.skip(0) =~= text@);
    while from < text.len() && is_space_char(text[from])
        invariant
            from <= text.len(),
            trim_start(text@.skip(from as int)) == trim_start(text@),
        decreases text.len() - from,
    {
        assert(text@.skip(from as int).drop_first() =~= text@.skip(from + 1));
        from += 1;
    }
    let ghost start = text@.skip(from as int);
    assert(trim_start(text@) == start);
    let mut to: usize = text.len();
    assert(text@.subrange(from as int, to as int) =~= start);
    while to > from && is_space_char(text[to - 1])
        invariant
            from <= to <= text.len(),
            trim_end(text@.subrange(from as int, to as int)) == trim_end(start),
        decreases to - from,
    {
        assert(text@.subrange(from as int, to as int).drop_last() =~= text@.subrange(
            from as int,
            to - 1,
        ));
        to -= 1;
    }
    let mut out: Vec<char> = Vec::new();
    let mut i: usize = from;
    while i < to
        invariant
            from <= i <= to,
            to <= text.len(),
            out@ == text@.subrange(from as int, i as int),
        decreases to - i,
    {
        out.push(text[i]);
        i += 1;
        assert(out@ =~= text@.subrange(from as int, i as int));
    }
    out
}

} // verus!

//! Character-level text handling: the views of `&str` and `String` are
//! sequences of `char`, and every operation here is specified over them.
use vstd::prelude::*;

verus! {

/// `String::push` from std, which vstd leaves without a specification. Its
/// documentation says it appends the given `char` to the end of the string;
/// this contract claims exactly that of the view: the old characters, then
/// `ch`.
pub assume_specification[ String::push ](s: &mut String, ch: char)
    ensures
        final(s)@ == old(s)@.push(ch),
;

// ---------------------------------------------------------------------------
// Specifications

/// Unicode `White_Space`: the characters `char::is_whitespace` accepts, which
/// is what `trim` and `split_whitespace` cut on.
pub open spec fn is_ws(c: char) -> bool {
    ||| ('\t' <= c && c <= '\r')
    ||| c == ' '
    ||| c == '\u{85}'
    ||| c == '\u{a0}'
    ||| c == '\u{1680}'
    ||| ('\u{2000}' <= c && c <= '\u{200a}')
    ||| c == '\u{2028}'
    ||| c == '\u{2029}'
    ||| c == '\u{202f}'
    ||| c == '\u{205f}'
    ||| c == '\u{3000}'
}

/// `s` without its leading whitespace.
pub open spec fn trim_start(s: Seq<char>) -> Seq<char>
    decreases s.len(),
{
    if s.len() > 0 && is_ws(s[0]) {
        trim_start(s.drop_first())
    } else {
        s
    }
}

/// `s` without its trailing whitespace.
pub open spec fn trim_end(s: Seq<char>) -> Seq<char>
    decreases s.len(),
{
    if s.len() > 0 && is_ws(s.last()) {
        trim_end(s.drop_last())
    } else {
        s
    }
}

/// `str::trim`: `s` without leading and trailing whitespace.
pub open spec fn trim(s: Seq<char>) -> Seq<char> {
    trim_end(trim_start(s))
}

/// ASCII lowercasing of one character.
pub open spec fn lower_char(c: char) -> char {
    if 'A' <= c && c <= 'Z' {
        ((c as u32) + 32) as char
    } else {
        c
    }
}

/// `str::to_ascii_lowercase`.
pub open spec fn lower(s: Seq<char>) -> Seq<char> {
    s.map_values(|c: char| lower_char(c))
}

/// Trimming drops spaces, tabs and line breaks around a text, and keeps a
/// text that begins and ends with a letter or digit as it is.
pub proof fn law_trim(s: Seq<char>, c: char)
    requires
        c == ' ' || c == '\t' || c == '\n' || c == '\r',
    ensures
        trim(seq![c] + s) == trim(s),
        trim(s.push(c)) == trim(s),
        s.len() > 0 && ascii_alnum(s[0]) && ascii_alnum(s.last()) ==> trim(s) == s,
{
    assert((seq![c] + s).drop_first() =~= s);
    assert(trim_start(seq![c] + s) == trim_start(s));
    lemma_trim_push_ws(s, c);
    if s.len() > 0 && ascii_alnum(s[0]) && ascii_alnum(s.last()) {
        lemma_trim_id(s);
    }
}

/// An ASCII letter or digit.
pub open spec fn ascii_alnum(c: char) -> bool {
    ('a' <= c && c <= 'z') || ('A' <= c && c <= 'Z') || ('0' <= c && c <= '9')
}

/// Lowercasing changes exactly the ASCII capitals, each to its small
/// letter, and keeps the length.
pub proof fn law_lower(s: Seq<char>)
    ensures
        lower(s).len() == s.len(),
        forall|i: int|
            0 <= i < s.len() ==> if 'A' <= s[i] && s[i] <= 'Z' {
                (#[trigger] lower(s)[i]) as u32 == (s[i] as u32) + 32
            } else {
                lower(s)[i] == s[i]
            },
{
}

/// A line as `str::lines` yields it: the text before a `\n`, with one `\r`
/// before that `\n` removed.
pub open spec fn strip_cr(s: Seq<char>) -> Seq<char> {
    if s.len() > 0 && s.last() == '\r' {
        s.drop_last()
    } else {
        s
    }
}

/// The lines that remain of `rest`, when `cur` holds the characters already
/// read of the current line.
pub open spec fn lines_from(cur: Seq<char>, rest: Seq<char>) -> Seq<Seq<char>>
    decreases rest.len(),
{
    if rest.len() == 0 {
        if cur.len() == 0 {
            Seq::empty()
        } else {
            seq![cur]
        }
    } else if rest[0] == '\n' {
        seq![strip_cr(cur)] + lines_from(Seq::empty(), rest.drop_first())
    } else {
        lines_from(cur.push(rest[0]), rest.drop_first())
    }
}

/// `str::lines`: split at `\n`; a `\r` right before a `\n` belongs to the line
/// ending; no empty last line after a final `\n`.
pub open spec fn lines(s: Seq<char>) -> Seq<Seq<char>> {
    lines_from(Seq::empty(), s)
}

/// The words that remain of `rest`, when `cur` holds the characters already
/// read of the current word.
pub open spec fn words_from(cur: Seq<char>, rest: Seq<char>) -> Seq<Seq<char>>
    decreases rest.len(),
{
    if rest.len() == 0 {
        if cur.len() == 0 {
            Seq::empty()
        } else {
            seq![cur]
        }
    } else if is_ws(rest[0]) {
        if cur.len() == 0 {
            words_from(Seq::empty(), rest.drop_first())
        } else {
            seq![cur] + words_from(Seq::empty(), rest.drop_first())
        }
    } else {
        words_from(cur.push(rest[0]), rest.drop_first())
    }
}

/// `str::split_whitespace`: the maximal runs of non-whitespace characters.
pub open spec fn words(s: Seq<char>) -> Seq<Seq<char>> {
    words_from(Seq::empty(), s)
}

/// `p` occurs in `s` at position `i`.
pub open spec fn occurs_at(s: Seq<char>, p: Seq<char>, i: int) -> bool {
    0 <= i && i + p.len() <= s.len() && s.subrange(i, i + p.len()) == p
}

/// `p` occurs somewhere in `s` (`str::contains`).
pub open spec fn contains(s: Seq<char>, p: Seq<char>) -> bool {
    exists|i: int| occurs_at(s, p, i)
}

/// `s` starts with `p` (`str::starts_with`).
pub open spec fn starts_with(s: Seq<char>, p: Seq<char>) -> bool {
    p.len() <= s.len() && s.subrange(0, p.len() as int) == p
}

/// `s` ends with `p` (`str::ends_with`).
pub open spec fn ends_with(s: Seq<char>, p: Seq<char>) -> bool {
    p.len() <= s.len() && s.subrange(s.len() - p.len(), s.len() as int) == p
}

/// `str::find`: the first position at which `p` occurs in `s`.
#[verifier::opaque]
pub open spec fn find(s: Seq<char>, p: Seq<char>) -> Option<int> {
    if contains(s, p) {
        Some(choose|i: int| occurs_at(s, p, i) && forall|j: int| 0 <= j < i ==> !occurs_at(s, p, j))
    } else {
        None
    }
}

/// The elements of `parts`, with `sep` between each two (`join`).
pub open spec fn join(parts: Seq<Seq<char>>, sep: Seq<char>) -> Seq<char>
    decreases parts.len(),
{
    if parts.len() == 0 {
        Seq::empty()
    } else if parts.len() == 1 {
        parts[0]
    } else {
        join(parts.drop_last(), sep) + sep + parts.last()
    }
}

/// The trimmed lines of a text that are not blank, in order: how Charm reads
/// its one-entry-per-line files.
pub open spec fn trimmed_nonblank(ls: Seq<Seq<char>>) -> Seq<Seq<char>>
    decreases ls.len(),
{
    if ls.len() == 0 {
        Seq::empty()
    } else {
        let before = trimmed_nonblank(ls.drop_last());
        let t = trim(ls.last());
        if t.len() > 0 {
            before.push(t)
        } else {
            before
        }
    }
}

/// The decimal digit for `d < 10`.
pub open spec fn digit(d: nat) -> char {
    (('0' as u32) + d) as char
}

/// The decimal representation of `n`, without leading zeros.
pub open spec fn decimal(n: nat) -> Seq<char>
    decreases n,
{
    if n < 10 {
        seq![digit(n)]
    } else {
        decimal(n / 10).push(digit(n % 10))
    }
}

/// The value of a sequence of decimal digits.
pub open spec fn digits_value(s: Seq<char>) -> nat
    decreases s.len(),
{
    if s.len() == 0 {
        0
    } else {
        digits_value(s.drop_last()) * 10 + ((s.last() as u32) - ('0' as u32)) as nat
    }
}

pub open spec fn is_digit(c: char) -> bool {
    '0' <= c && c <= '9'
}

pub open spec fn all_digits(s: Seq<char>) -> bool {
    forall|i: int| 0 <= i < s.len() ==> is_digit(#[trigger] s[i])
}

/// What `<u16 as FromStr>::from_str` accepts: an optional `+`, then one or
/// more decimal digits whose value fits in 16 bits.
pub open spec fn parse_u16(s: Seq<char>) -> Option<u16> {
    let d = if s.len() > 0 && s[0] == '+' { s.drop_first() } else { s };
    if d.len() > 0 && all_digits(d) && digits_value(d) <= 0xffff {
        Some(digits_value(d) as u16)
    } else {
        None
    }
}


// ---------------------------------------------------------------------------
// Lemmas

pub proof fn lemma_trim_start_skip(s: Seq<char>, k: int)
    requires
        0 <= k <= s.len(),
        forall|i: int| 0 <= i < k ==> is_ws(#[trigger] s[i]),
        k == s.len() || !is_ws(s[k]),
    ensures
        trim_start(s) == s.skip(k),
    decreases k,
{
    if k == 0 {
        assert(s.skip(0) =~= s);
    } else {
        let t = s.drop_first();
        assert forall|i: int| 0 <= i < k - 1 implies is_ws(#[trigger] t[i]) by {
            assert(t[i] == s[i + 1]);
        }
        lemma_trim_start_skip(t, k - 1);
        assert(t.skip(k - 1) =~= s.skip(k));
    }
}

pub proof fn lemma_trim_end_take(s: Seq<char>, k: int)
    requires
        0 <= k <= s.len(),
        forall|i: int| k <= i < s.len() ==> is_ws(#[trigger] s[i]),
        k == 0 || !is_ws(s[k - 1]),
    ensures
        trim_end(s) == s.take(k),
    decreases s.len() - k,
{
    if k == s.len() {
        assert(s.take(k) =~= s);
    } else {
        let t = s.drop_last();
        assert forall|i: int| k <= i < t.len() implies is_ws(#[trigger] t[i]) by {
            assert(t[i] == s[i]);
        }
        lemma_trim_end_take(t, k);
        assert(t.take(k) =~= s.take(k));
    }
}

/// A sequence with no whitespace at either end is its own trim.
pub proof fn lemma_trim_id(s: Seq<char>)
    requires
        s.len() == 0 || (!is_ws(s[0]) && !is_ws(s.last())),
    ensures
        trim(s) == s,
{
    assert(trim_start(s) == s);
    assert(trim_end(s) == s);
}

/// `trim` yields a sequence with no whitespace at either end.
pub proof fn lemma_trim_ends(s: Seq<char>)
    ensures
        trim(s).len() == 0 || (!is_ws(trim(s)[0]) && !is_ws(trim(s).last())),
        trim(s).len() <= s.len(),
    decreases s.len(),
{
    lemma_trim_start_ends(s);
    lemma_trim_end_ends(trim_start(s));
}

proof fn lemma_trim_start_ends(s: Seq<char>)
    ensures
        trim_start(s).len() == 0 || !is_ws(trim_start(s)[0]),
        trim_start(s).len() <= s.len(),
        trim_start(s).len() > 0 ==> trim_start(s).last() == s.last(),
    decreases s.len(),
{
    if s.len() > 0 && is_ws(s[0]) {
        lemma_trim_start_ends(s.drop_first());
    }
}

proof fn lemma_trim_end_ends(s: Seq<char>)
    ensures
        trim_end(s).len() == 0 || !is_ws(trim_end(s).last()),
        trim_end(s).len() <= s.len(),
        trim_end(s).len() > 0 ==> trim_end(s)[0] == s[0],
    decreases s.len(),
{
    if s.len() > 0 && is_ws(s.last()) {
        lemma_trim_end_ends(s.drop_last());
    }
}

pub proof fn lemma_trim_idempotent(s: Seq<char>)
    ensures
        trim(trim(s)) == trim(s),
{
    lemma_trim_ends(s);
    lemma_trim_id(trim(s));
}


/// Reading a run of characters with no line break just extends the current line.
pub proof fn lemma_lines_from_no_newline(cur: Seq<char>, e: Seq<char>, rest: Seq<char>)
    requires
        !e.contains('\n'),
    ensures
        lines_from(cur, e + rest) == lines_from(cur + e, rest),
    decreases e.len(),
{
    if e.len() == 0 {
        assert(e + rest =~= rest);
        assert(cur + e =~= cur);
    } else {
        assert(e[0] != '\n');
        let t = e.drop_first();
        assert(!t.contains('\n')) by {
            if t.contains('\n') {
                let j = choose|j: int| 0 <= j < t.len() && t[j] == '\n';
                assert(e[j + 1] == '\n');
            }
        }
        assert((e + rest)[0] == e[0]);
        assert((e + rest).drop_first() =~= t + rest);
        lemma_lines_from_no_newline(cur.push(e[0]), t, rest);
        assert(cur.push(e[0]) + t =~= cur + e);
    }
}

/// The lines of a text that ends in a line break, followed by more text, are
/// the lines of the first part followed by those of the second.
pub proof fn lemma_lines_from_append(cur: Seq<char>, a: Seq<char>, b: Seq<char>)
    requires
        a.len() > 0,
        a.last() == '\n',
    ensures
        lines_from(cur, a + b) == lines_from(cur, a) + lines_from(Seq::empty(), b),
    decreases a.len(),
{
    assert((a + b)[0] == a[0]);
    assert((a + b).drop_first() =~= a.drop_first() + b);
    if a.len() == 1 {
        assert(a.drop_first() + b =~= b);
        assert(lines_from(Seq::empty(), a.drop_first()) =~= Seq::<Seq<char>>::empty());
        assert(lines_from(cur, a) =~= seq![strip_cr(cur)]);
    } else {
        let t = a.drop_first();
        assert(t.last() == '\n');
        if a[0] == '\n' {
            lemma_lines_from_append(Seq::empty(), t, b);
            assert(lines_from(cur, a + b) =~= seq![strip_cr(cur)] + lines_from(Seq::empty(), t + b));
        } else {
            lemma_lines_from_append(cur.push(a[0]), t, b);
        }
    }
}

/// A line with no line break, followed by a line break, reads back as that
/// line without a final carriage return.
pub proof fn lemma_lines_single(e: Seq<char>)
    requires
        !e.contains('\n'),
    ensures
        lines(e + seq!['\n']) == seq![strip_cr(e)],
{
    lemma_lines_from_no_newline(Seq::empty(), e, seq!['\n']);
    assert(Seq::<char>::empty() + e =~= e);
    assert(seq!['\n'].drop_first() =~= Seq::<char>::empty());
    assert(seq!['\n'][0] == '\n');
    assert(lines_from(Seq::empty(), Seq::<char>::empty()) =~= Seq::<Seq<char>>::empty());
    assert(lines_from(e, seq!['\n']) =~= seq![strip_cr(e)] + Seq::<Seq<char>>::empty());
}

/// Joining lines with line breaks and ending the last one reads back as the
/// same lines, less any final carriage return.
pub proof fn lemma_lines_join(list: Seq<Seq<char>>)
    requires
        list.len() > 0,
        forall|i: int| 0 <= i < list.len() ==> !(#[trigger] list[i]).contains('\n'),
    ensures
        lines(join(list, seq!['\n']) + seq!['\n']) == list.map_values(|e: Seq<char>| strip_cr(e)),
    decreases list.len(),
{
    let e = list.last();
    assert(!list[list.len() - 1].contains('\n'));
    lemma_lines_single(e);
    if list.len() == 1 {
        assert(join(list, seq!['\n']) == list[0]);
        assert(list.map_values(|e: Seq<char>| strip_cr(e)) =~= seq![strip_cr(e)]);
    } else {
        let p = list.drop_last();
        assert forall|i: int| 0 <= i < p.len() implies !(#[trigger] p[i]).contains('\n') by {
            assert(p[i] == list[i]);
        }
        lemma_lines_join(p);
        let a = join(p, seq!['\n']) + seq!['\n'];
        assert(join(list, seq!['\n']) + seq!['\n'] =~= a + (e + seq!['\n']));
        assert(a.last() == '\n');
        lemma_lines_from_append(Seq::empty(), a, e + seq!['\n']);
        assert(list.map_values(|e: Seq<char>| strip_cr(e)) =~= p.map_values(
            |e: Seq<char>| strip_cr(e),
        ) + seq![strip_cr(e)]);
    }
}

/// No line holds a line break.
pub proof fn lemma_lines_no_newline(s: Seq<char>)
    ensures
        forall|i: int| 0 <= i < lines(s).len() ==> !(#[trigger] lines(s)[i]).contains('\n'),
{
    lemma_lines_from_no_newline_elems(Seq::empty(), s);
}

proof fn lemma_strip_cr_no_newline(c: Seq<char>)
    requires
        !c.contains('\n'),
    ensures
        !strip_cr(c).contains('\n'),
{
    if strip_cr(c).contains('\n') {
        let j = choose|j: int| 0 <= j < strip_cr(c).len() && strip_cr(c)[j] == '\n';
        assert(c[j] == '\n');
    }
}

proof fn lemma_lines_from_no_newline_elems(cur: Seq<char>, rest: Seq<char>)
    requires
        !cur.contains('\n'),
    ensures
        forall|i: int|
            0 <= i < lines_from(cur, rest).len() ==> !(#[trigger] lines_from(cur, rest)[i]).contains(
                '\n',
            ),
    decreases rest.len(),
{
    if rest.len() == 0 {
        if cur.len() > 0 {
            assert(lines_from(cur, rest) =~= seq![cur]);
        }
    } else if rest[0] == '\n' {
        assert(!Seq::<char>::empty().contains('\n'));
        lemma_lines_from_no_newline_elems(Seq::empty(), rest.drop_first());
        lemma_strip_cr_no_newline(cur);
        let t = lines_from(Seq::empty(), rest.drop_first());
        assert forall|i: int| 0 <= i < lines_from(cur, rest).len() implies !(#[trigger] lines_from(
            cur,
            rest,
        )[i]).contains('\n') by {
            if i > 0 {
                assert(lines_from(cur, rest)[i] == t[i - 1]);
            }
        }
    } else {
        assert(!cur.push(rest[0]).contains('\n')) by {
            if cur.push(rest[0]).contains('\n') {
                let j = choose|j: int| 0 <= j < cur.push(rest[0]).len() && cur.push(rest[0])[j] == '\n';
                if j < cur.len() {
                    assert(cur[j] == '\n');
                }
            }
        }
        lemma_lines_from_no_newline_elems(cur.push(rest[0]), rest.drop_first());
        assert(lines_from(cur, rest) == lines_from(cur.push(rest[0]), rest.drop_first()));
    }
}

/// A line that is already trimmed and not blank passes through the
/// trimmed-non-blank reading unchanged.
proof fn lemma_trim_start_within(s: Seq<char>, c: char)
    ensures
        trim_start(s).contains(c) ==> s.contains(c),
    decreases s.len(),
{
    if s.len() > 0 && is_ws(s[0]) {
        let t = s.drop_first();
        lemma_trim_start_within(t, c);
        if t.contains(c) {
            let j = choose|j: int| 0 <= j < t.len() && t[j] == c;
            assert(s[j + 1] == c);
        }
    }
}

proof fn lemma_trim_end_within(s: Seq<char>, c: char)
    ensures
        trim_end(s).contains(c) ==> s.contains(c),
    decreases s.len(),
{
    if s.len() > 0 && is_ws(s.last()) {
        let t = s.drop_last();
        lemma_trim_end_within(t, c);
        if t.contains(c) {
            let j = choose|j: int| 0 <= j < t.len() && t[j] == c;
            assert(s[j] == c);
        }
    }
}

/// Trimming keeps only characters of the original.
pub proof fn lemma_trim_within(s: Seq<char>, c: char)
    ensures
        trim(s).contains(c) ==> s.contains(c),
{
    lemma_trim_end_within(trim_start(s), c);
    lemma_trim_start_within(s, c);
}

/// The entries kept by `trimmed_nonblank` are non-empty, trimmed, and each
/// the trim of one of the lines.
pub proof fn lemma_trimmed_nonblank_elems(ls: Seq<Seq<char>>)
    ensures
        forall|i: int|
            0 <= i < trimmed_nonblank(ls).len() ==> {
                let e = #[trigger] trimmed_nonblank(ls)[i];
                &&& e.len() > 0
                &&& trim(e) == e
                &&& exists|j: int| 0 <= j < ls.len() && e == trim(ls[j])
            },
    decreases ls.len(),
{
    if ls.len() > 0 {
        let p = ls.drop_last();
        lemma_trimmed_nonblank_elems(p);
        lemma_trim_idempotent(ls.last());
        let r = trimmed_nonblank(ls);
        let b = trimmed_nonblank(p);
        assert forall|i: int| 0 <= i < r.len() implies {
            let e = #[trigger] r[i];
            &&& e.len() > 0
            &&& trim(e) == e
            &&& exists|j: int| 0 <= j < ls.len() && e == trim(ls[j])
        } by {
            if i < b.len() {
                assert(r[i] == b[i]);
                let j = choose|j: int| 0 <= j < p.len() && b[i] == trim(p[j]);
                assert(p[j] == ls[j]);
            } else {
                assert(r[i] == trim(ls[ls.len() - 1]));
            }
        }
    }
}

pub proof fn lemma_trimmed_nonblank_id(ls: Seq<Seq<char>>)
    requires
        forall|i: int| 0 <= i < ls.len() ==> trim(#[trigger] ls[i]) == ls[i] && ls[i].len() > 0,
    ensures
        trimmed_nonblank(ls) == ls,
    decreases ls.len(),
{
    if ls.len() > 0 {
        let p = ls.drop_last();
        assert forall|i: int| 0 <= i < p.len() implies trim(#[trigger] p[i]) == p[i] && p[i].len()
            > 0 by {
            assert(p[i] == ls[i]);
        }
        lemma_trimmed_nonblank_id(p);
        assert(trim(ls[ls.len() - 1]) == ls[ls.len() - 1]);
        assert(ls =~= p.push(ls.last()));
    }
}

/// ASCII lowercasing twice is lowercasing once.
pub proof fn lemma_lower_idempotent(s: Seq<char>)
    ensures
        lower(lower(s)) == lower(s),
{
    assert forall|i: int| 0 <= i < s.len() implies #[trigger] lower(lower(s))[i] == lower(s)[i] by {
        let c = s[i];
        if 'A' <= c && c <= 'Z' {
            assert((((c as u32) + 32) as char) as u32 == (c as u32) + 32);
        }
    }
    assert(lower(lower(s)) =~= lower(s));
}


/// Where `find` finds, the pattern occurs, and nowhere before.
pub proof fn lemma_find_in_range(s: Seq<char>, p: Seq<char>)
    ensures
        find(s, p) matches Some(i) ==> occurs_at(s, p, i) && 0 <= i && i + p.len() <= s.len()
            && forall|j: int| 0 <= j < i ==> !occurs_at(s, p, j),
        find(s, p) is None <==> !contains(s, p),
{
    reveal(find);
    if contains(s, p) {
        let w = choose|i: int| occurs_at(s, p, i);
        lemma_first_occurrence(s, p, w);
    }
}

/// If `p` occurs at `w`, it has a first occurrence.
pub proof fn lemma_first_occurrence(s: Seq<char>, p: Seq<char>, w: int)
    requires
        occurs_at(s, p, w),
    ensures
        exists|i: int| occurs_at(s, p, i) && forall|j: int| 0 <= j < i ==> !occurs_at(s, p, j),
    decreases w,
{
    if exists|j: int| 0 <= j < w && occurs_at(s, p, j) {
        let j = choose|j: int| 0 <= j < w && occurs_at(s, p, j);
        lemma_first_occurrence(s, p, j);
    } else {
        assert(occurs_at(s, p, w) && forall|j: int| 0 <= j < w ==> !occurs_at(s, p, j));
    }
}


proof fn lemma_trim_start_push(x: Seq<char>, c: char)
    requires
        is_ws(c),
    ensures
        trim_start(x.push(c)) == (if trim_start(x).len() == 0 {
            Seq::<char>::empty()
        } else {
            trim_start(x).push(c)
        }),
    decreases x.len(),
{
    if x.len() == 0 {
        assert(x.push(c) =~= seq![c]);
        assert(seq![c].drop_first() =~= Seq::<char>::empty());
        assert(seq![c][0] == c);
        assert(trim_start(seq![c]) == trim_start(Seq::<char>::empty()));
    } else if is_ws(x[0]) {
        assert(x.push(c)[0] == x[0]);
        assert(x.push(c).drop_first() =~= x.drop_first().push(c));
        lemma_trim_start_push(x.drop_first(), c);
    } else {
        assert(x.push(c)[0] == x[0]);
    }
}

/// Trailing whitespace does not change the trim.
pub proof fn lemma_trim_push_ws(x: Seq<char>, c: char)
    requires
        is_ws(c),
    ensures
        trim(x.push(c)) == trim(x),
{
    lemma_trim_start_push(x, c);
    let t = trim_start(x);
    if t.len() > 0 {
        assert(t.push(c).drop_last() =~= t);
        assert(t.push(c).last() == c);
    }
}

/// A line's final carriage return does not change its trim.
pub proof fn lemma_trim_strip_cr(x: Seq<char>)
    ensures
        trim(strip_cr(x)) == trim(x),
{
    if x.len() > 0 && x.last() == '\r' {
        assert(x.drop_last().push('\r') =~= x);
        lemma_trim_push_ws(x.drop_last(), '\r');
    }
}

/// Two texts in which a pattern occurs at the same places have the same
/// first occurrence.
pub proof fn lemma_find_same(s1: Seq<char>, s2: Seq<char>, p: Seq<char>)
    requires
        forall|i: int| occurs_at(s1, p, i) <==> occurs_at(s2, p, i),
    ensures
        find(s1, p) == find(s2, p),
{
    reveal(find);
    if contains(s1, p) {
        let w = choose|i: int| occurs_at(s1, p, i);
        assert(occurs_at(s2, p, w));
        lemma_first_occurrence(s1, p, w);
        let a = choose|i: int| occurs_at(s1, p, i) && forall|j: int| 0 <= j < i ==> !occurs_at(s1, p, j);
        let b = choose|i: int| occurs_at(s2, p, i) && forall|j: int| 0 <= j < i ==> !occurs_at(s2, p, j);
        lemma_first_occurrence(s2, p, w);
        assert(occurs_at(s2, p, a) && forall|j: int| 0 <= j < a ==> !occurs_at(s2, p, j));
        if a < b {
            assert(!occurs_at(s2, p, a));
        }
        if b < a {
            assert(!occurs_at(s1, p, b));
        }
    } else {
        assert(!contains(s2, p)) by {
            if contains(s2, p) {
                let w = choose|i: int| occurs_at(s2, p, i);
                assert(occurs_at(s1, p, w));
            }
        }
    }
}

/// A pattern without a carriage return occurs in a line at the same places
/// whether or not the line's final carriage return is there.
pub proof fn lemma_occurs_strip_cr(x: Seq<char>, p: Seq<char>)
    requires
        p.len() > 0,
        !p.contains('\r'),
    ensures
        forall|i: int| occurs_at(strip_cr(x), p, i) <==> occurs_at(x, p, i),
{
    if x.len() > 0 && x.last() == '\r' {
        let y = x.drop_last();
        assert forall|i: int| occurs_at(y, p, i) <==> occurs_at(x, p, i) by {
            if occurs_at(y, p, i) {
                assert(x.subrange(i, i + p.len()) =~= y.subrange(i, i + p.len()));
            }
            if occurs_at(x, p, i) {
                if i + p.len() == x.len() {
                    assert(x.subrange(i, i + p.len())[p.len() - 1] == '\r');
                    assert(p[p.len() - 1] == '\r');
                    assert(p.contains('\r'));
                }
                assert(y.subrange(i, i + p.len()) =~= x.subrange(i, i + p.len()));
            }
        }
    }
}

/// `lines_from` yields at least one line when anything is left to read.
pub proof fn lemma_lines_from_nonempty(cur: Seq<char>, r: Seq<char>)
    requires
        cur.len() + r.len() > 0,
    ensures
        lines_from(cur, r).len() > 0,
    decreases r.len(),
{
    if r.len() > 0 && r[0] != '\n' {
        lemma_lines_from_nonempty(cur.push(r[0]), r.drop_first());
    }
}

/// Ending a text that has no final line break with one only strips a final
/// carriage return from its last line.
pub proof fn lemma_lines_from_end_newline(cur: Seq<char>, r: Seq<char>)
    requires
        cur.len() + r.len() > 0,
        r.len() == 0 || r.last() != '\n',
    ensures
        lines_from(cur, r + seq!['\n']) == lines_from(cur, r).drop_last().push(
            strip_cr(lines_from(cur, r).last()),
        ),
    decreases r.len(),
{
    let rn = r + seq!['\n'];
    if r.len() == 0 {
        assert(rn =~= seq!['\n']);
        assert(rn.drop_first() =~= Seq::<char>::empty());
        assert(lines_from(Seq::empty(), Seq::<char>::empty()) =~= Seq::<Seq<char>>::empty());
        assert(lines_from(cur, rn) =~= seq![strip_cr(cur)]);
        assert(lines_from(cur, r) =~= seq![cur]);
        assert(seq![cur].drop_last().push(strip_cr(cur)) =~= seq![strip_cr(cur)]);
    } else {
        assert(rn[0] == r[0]);
        assert(rn.drop_first() =~= r.drop_first() + seq!['\n']);
        let t = r.drop_first();
        if r[0] == '\n' {
            assert(t.len() > 0);
            assert(t.last() == r.last());
            lemma_lines_from_end_newline(Seq::empty(), t);
            lemma_lines_from_nonempty(Seq::empty(), t);
            let x = lines_from(Seq::empty(), t);
            let h = seq![strip_cr(cur)];
            assert(lines_from(cur, r) == h + x);
            assert((h + x).drop_last() =~= h + x.drop_last());
            assert((h + x).last() == x.last());
            assert(lines_from(cur, rn) == h + lines_from(Seq::empty(), t + seq!['\n']));
            assert(h + x.drop_last().push(strip_cr(x.last())) =~= (h + x.drop_last()).push(
                strip_cr(x.last()),
            ));
        } else {
            if t.len() > 0 {
                assert(t.last() == r.last());
            }
            lemma_lines_from_end_newline(cur.push(r[0]), t);
        }
    }
}

/// The lines of a text, followed by a line break, when the text is not empty
/// and has no final line break.
pub proof fn lemma_lines_end_newline(s: Seq<char>)
    requires
        s.len() > 0,
        s.last() != '\n',
    ensures
        lines(s + seq!['\n']) == lines(s).drop_last().push(strip_cr(lines(s).last())),
        lines(s).len() > 0,
{
    lemma_lines_from_end_newline(Seq::empty(), s);
    lemma_lines_from_nonempty(Seq::empty(), s);
}

/// Every word of `s` occurs in `s`.
pub proof fn lemma_words_occur(s: Seq<char>)
    ensures
        forall|i: int| 0 <= i < words(s).len() ==> contains(s, #[trigger] words(s)[i]),
{
    assert(s.subrange(0, 0) =~= Seq::<char>::empty());
    lemma_words_from_occur(s, Seq::empty(), 0);
    assert(s.skip(0) =~= s);
}

proof fn lemma_words_from_occur(s: Seq<char>, cur: Seq<char>, off: int)
    requires
        0 <= cur.len() <= off <= s.len(),
        s.subrange(off - cur.len(), off) == cur,
    ensures
        forall|i: int|
            0 <= i < words_from(cur, s.skip(off)).len() ==> contains(
                s,
                #[trigger] words_from(cur, s.skip(off))[i],
            ),
    decreases s.len() - off,
{
    let rest = s.skip(off);
    assert(occurs_at(s, cur, off - cur.len()));
    assert(contains(s, cur));
    if rest.len() == 0 {
        if cur.len() > 0 {
            assert(words_from(cur, rest) =~= seq![cur]);
        }
    } else {
        assert(rest[0] == s[off]);
        assert(rest.drop_first() =~= s.skip(off + 1));
        if is_ws(rest[0]) {
            assert(s.subrange(off + 1, off + 1) =~= Seq::<char>::empty());
            lemma_words_from_occur(s, Seq::empty(), off + 1);
            let tail = words_from(Seq::empty(), s.skip(off + 1));
            if cur.len() > 0 {
                assert forall|i: int|
                    0 <= i < words_from(cur, rest).len() implies contains(
                    s,
                    #[trigger] words_from(cur, rest)[i],
                ) by {
                    if i > 0 {
                        assert(words_from(cur, rest)[i] == tail[i - 1]);
                    }
                }
            } else {
                assert(cur =~= Seq::<char>::empty());
                assert(words_from(cur, rest) == tail);
            }
        } else {
            assert(s.subrange(off + 1 - (cur.len() + 1), off + 1) =~= cur.push(s[off]));
            lemma_words_from_occur(s, cur.push(rest[0]), off + 1);
            assert(words_from(cur, rest) == words_from(cur.push(rest[0]), s.skip(off + 1)));
        }
    }
}

/// A pattern that occurs within a part of a text occurs in the text.
pub proof fn lemma_contains_within(s: Seq<char>, part: Seq<char>, at: int, p: Seq<char>)
    requires
        occurs_at(s, part, at),
        contains(part, p),
    ensures
        contains(s, p),
{
    let i = choose|i: int| occurs_at(part, p, i);
    assert(s.subrange(at + i, at + i + p.len()) =~= part.subrange(i, i + p.len()));
    assert(occurs_at(s, p, at + i));
}


pub proof fn lemma_decimal_digits(n: nat)
    ensures
        decimal(n).len() > 0,
        all_digits(decimal(n)),
        digits_value(decimal(n)) == n,
        decimal(n)[0] != '+',
    decreases n,
{
    if n < 10 {
        assert(decimal(n) =~= seq![digit(n)]);
        assert(seq![digit(n)].drop_last() =~= Seq::<char>::empty());
        assert((digit(n) as u32) == ('0' as u32) + n);
        assert(digits_value(Seq::<char>::empty()) == 0);
        assert(digits_value(seq![digit(n)]) == 0 * 10 + n);
    } else {
        lemma_decimal_digits(n / 10);
        let d = decimal(n / 10);
        let e = d.push(digit(n % 10));
        assert(e.drop_last() =~= d);
        assert((digit(n % 10) as u32) == ('0' as u32) + n % 10);
        assert forall|i: int| 0 <= i < e.len() implies is_digit(#[trigger] e[i]) by {
            if i < d.len() {
                assert(e[i] == d[i]);
            }
        }
        assert(e[0] == d[0]);
        assert(e.last() == digit(n % 10));
        assert(digits_value(e) == digits_value(d) * 10 + (n % 10));
        assert(digits_value(d) == n / 10);
        assert((n / 10) * 10 + n % 10 == n) by (nonlinear_arith);
    }
}

/// Parsing the decimal representation of a port gives back the port.
pub proof fn law_parse_decimal_round_trip(p: u16)
    ensures
        parse_u16(decimal(p as nat)) == Some(p),
{
    lemma_decimal_digits(p as nat);
}

// ---------------------------------------------------------------------------
// Executable operations on characters

/// `str::trim`.
pub fn trim_chars(v: &Vec<char>) -> (r: Vec<char>)
    ensures
        r@ == trim(v@),
{
    let mut i: usize = 0;
    while i < v.len() && is_whitespace(v[i])
        invariant
            i <= v.len(),
            forall|j: int| 0 <= j < i ==> is_ws(#[trigger] v@[j]),
        decreases v.len() - i,
    {
        i = i + 1;
    }
    proof {
        lemma_trim_start_skip(v@, i as int);
    }
    let ghost t = v@.skip(i as int);
    let mut j: usize = v.len();
    while j > i && is_whitespace(v[j - 1])
        invariant
            i <= j <= v.len(),
            forall|k: int| j <= k < v.len() ==> is_ws(#[trigger] v@[k]),
        decreases j,
    {
        j = j - 1;
    }
    proof {
        assert forall|k: int| j - i <= k < t.len() implies is_ws(#[trigger] t[k]) by {
            assert(t[k] == v@[k + i]);
        }
        if j > i {
            assert(t[j - i - 1] == v@[j - 1]);
        }
        lemma_trim_end_take(t, j - i);
    }
    let mut r: Vec<char> = Vec::new();
    let mut k: usize = i;
    while k < j
        invariant
            i <= k <= j,
            j <= v.len(),
            r@ == v@.subrange(i as int, k as int),
        decreases j - k,
    {
        r.push(v[k]);
        k = k + 1;
        assert(r@ =~= v@.subrange(i as int, k as int));
    }
    assert(r@ =~= t.take(j - i));
    r
}


/// `str::trim_start`.
pub fn trim_start_chars(v: &Vec<char>) -> (r: Vec<char>)
    ensures
        r@ == trim_start(v@),
{
    let mut i: usize = 0;
    while i < v.len() && is_whitespace(v[i])
        invariant
            i <= v.len(),
            forall|j: int| 0 <= j < i ==> is_ws(#[trigger] v@[j]),
        decreases v.len() - i,
    {
        i = i + 1;
    }
    proof {
        lemma_trim_start_skip(v@, i as int);
    }
    let mut r: Vec<char> = Vec::new();
    let mut k: usize = i;
    while k < v.len()
        invariant
            i <= k <= v.len(),
            r@ == v@.subrange(i as int, k as int),
        decreases v.len() - k,
    {
        r.push(v[k]);
        k = k + 1;
        assert(r@ =~= v@.subrange(i as int, k as int));
    }
    assert(r@ =~= v@.skip(i as int));
    r
}

/// `str::trim`, on a string.
pub fn trim_str(s: &str) -> (r: String)
    ensures
        r@ == trim(s@),
{
    let v = chars_of(s);
    let t = trim_chars(&v);
    string_of(&t)
}

/// `str::to_ascii_lowercase`.
pub fn lower_chars(v: &Vec<char>) -> (r: Vec<char>)
    ensures
        r@ == lower(v@),
{
    let mut r: Vec<char> = Vec::new();
    let mut i: usize = 0;
    while i < v.len()
        invariant
            i <= v.len(),
            r@ == lower(v@.take(i as int)),
        decreases v.len() - i,
    {
        r.push(to_lower(v[i]));
        i = i + 1;
        assert(r@ =~= lower(v@.take(i as int)));
    }
    assert(v@.take(v.len() as int) =~= v@);
    r
}


/// The views of a sequence of character vectors.
pub open spec fn views(v: Seq<Vec<char>>) -> Seq<Seq<char>> {
    v.map_values(|x: Vec<char>| x@)
}

/// The views of a sequence of strings.
pub open spec fn string_views(v: Seq<String>) -> Seq<Seq<char>> {
    v.map_values(|x: String| x@)
}

/// `str::lines`.
pub fn lines_chars(v: &Vec<char>) -> (r: Vec<Vec<char>>)
    ensures
        views(r@) == lines(v@),
{
    let mut out: Vec<Vec<char>> = Vec::new();
    let mut cur: Vec<char> = Vec::new();
    let mut i: usize = 0;
    assert(v@.skip(0) =~= v@);
    assert(views(out@) =~= Seq::<Seq<char>>::empty());
    assert(cur@ =~= Seq::<char>::empty());
    while i < v.len()
        invariant
            i <= v.len(),
            lines(v@) == views(out@) + lines_from(cur@, v@.skip(i as int)),
        decreases v.len() - i,
    {
        let ghost rest = v@.skip(i as int);
        let ghost c0 = cur@;
        let ghost before = views(out@);
        assert(rest.drop_first() =~= v@.skip(i + 1));
        assert(rest[0] == v@[i as int]);
        if v[i] == '\n' {
            let mut line = cur;
            if line.len() > 0 && line[line.len() - 1] == '\r' {
                line.pop();
            }
            assert(line@ =~= strip_cr(c0));
            out.push(line);
            cur = Vec::new();
            assert(views(out@) =~= before.push(strip_cr(c0)));
            assert(lines_from(c0, rest) == seq![strip_cr(c0)] + lines_from(Seq::empty(), rest.drop_first()));
            assert(before + lines_from(c0, rest) =~= views(out@) + lines_from(cur@, v@.skip(i + 1)));
        } else {
            cur.push(v[i]);
            assert(lines_from(c0, rest) == lines_from(cur@, rest.drop_first()));
        }
        i = i + 1;
    }
    assert(v@.skip(i as int) =~= Seq::<char>::empty());
    let ghost before = views(out@);
    if cur.len() > 0 {
        out.push(cur);
        assert(views(out@) =~= before + seq![cur@]);
    } else {
        assert(views(out@) =~= before + Seq::<Seq<char>>::empty());
    }
    out
}

/// `str::split_whitespace`.
pub fn words_chars(v: &Vec<char>) -> (r: Vec<Vec<char>>)
    ensures
        views(r@) == words(v@),
{
    let mut out: Vec<Vec<char>> = Vec::new();
    let mut cur: Vec<char> = Vec::new();
    let mut i: usize = 0;
    assert(v@.skip(0) =~= v@);
    assert(views(out@) =~= Seq::<Seq<char>>::empty());
    assert(cur@ =~= Seq::<char>::empty());
    while i < v.len()
        invariant
            i <= v.len(),
            words(v@) == views(out@) + words_from(cur@, v@.skip(i as int)),
        decreases v.len() - i,
    {
        let ghost rest = v@.skip(i as int);
        let ghost c0 = cur@;
        let ghost before = views(out@);
        assert(rest.drop_first() =~= v@.skip(i + 1));
        assert(rest[0] == v@[i as int]);
        if is_whitespace(v[i]) {
            if cur.len() > 0 {
                out.push(cur);
                cur = Vec::new();
                assert(views(out@) =~= before.push(c0));
                assert(before + words_from(c0, rest) =~= views(out@) + words_from(cur@, v@.skip(i + 1)));
            } else {
                assert(c0 =~= Seq::<char>::empty());
                assert(words_from(c0, rest) == words_from(cur@, rest.drop_first()));
            }
        } else {
            cur.push(v[i]);
            assert(words_from(c0, rest) == words_from(cur@, rest.drop_first()));
        }
        i = i + 1;
    }
    assert(v@.skip(i as int) =~= Seq::<char>::empty());
    let ghost before = views(out@);
    if cur.len() > 0 {
        out.push(cur);
        assert(views(out@) =~= before + seq![cur@]);
    } else {
        assert(views(out@) =~= before + Seq::<Seq<char>>::empty());
    }
    out
}

/// The elements of `parts` joined by `sep`.
pub fn join_chars(parts: &Vec<Vec<char>>, sep: &Vec<char>) -> (r: Vec<char>)
    ensures
        r@ == join(views(parts@), sep@),
{
    let mut r: Vec<char> = Vec::new();
    let mut i: usize = 0;
    while i < parts.len()
        invariant
            i <= parts.len(),
            r@ == join(views(parts@).take(i as int), sep@),
        decreases parts.len() - i,
    {
        let ghost pv = views(parts@);
        assert(pv.take(i + 1).drop_last() =~= pv.take(i as int));
        assert(pv.take(i + 1).last() == parts@[i as int]@);
        if i > 0 {
            append_chars(&mut r, sep);
        }
        append_chars(&mut r, &parts[i]);
        i = i + 1;
    }
    assert(views(parts@).take(i as int) =~= views(parts@));
    r
}

/// Append the characters of `b` to `a`.
pub fn append_chars(a: &mut Vec<char>, b: &Vec<char>)
    ensures
        final(a)@ == old(a)@ + b@,
{
    let mut i: usize = 0;
    while i < b.len()
        invariant
            i <= b.len(),
            a@ == old(a)@ + b@.take(i as int),
        decreases b.len() - i,
    {
        a.push(b[i]);
        i = i + 1;
        assert(a@ =~= old(a)@ + b@.take(i as int));
    }
    assert(b@.take(i as int) =~= b@);
}

/// Append the characters of `s` to `a`.
pub fn append_str(a: &mut Vec<char>, s: &str)
    ensures
        final(a)@ == old(a)@ + s@,
{
    let v = chars_of(s);
    append_chars(a, &v);
}

/// The decimal representation of `n`.
pub fn decimal_chars(n: u64) -> (r: Vec<char>)
    ensures
        r@ == decimal(n as nat),
{
    let mut r: Vec<char> = Vec::new();
    push_decimal(&mut r, n);
    assert(r@ =~= decimal(n as nat));
    r
}

/// Append the decimal representation of `n` to `out`.
pub fn push_decimal(out: &mut Vec<char>, n: u64)
    ensures
        final(out)@ == old(out)@ + decimal(n as nat),
    decreases n,
{
    if n >= 10 {
        push_decimal(out, n / 10);
    }
    let d = (n % 10) as u32;
    let c = (('0' as u32) + d) as u8 as char;
    assert(c == digit((n % 10) as nat)) by {
        assert(('0' as u32) + d < 256);
    }
    out.push(c);
    proof {
        if n >= 10 {
            assert(decimal(n as nat) == decimal((n / 10) as nat).push(digit((n % 10) as nat)));
        }
    }
    assert(out@ =~= old(out)@ + decimal(n as nat));
}

/// Decimal string of `n`.
pub fn decimal_string(n: u64) -> (r: String)
    ensures
        r@ == decimal(n as nat),
{
    let v = decimal_chars(n);
    string_of(&v)
}

/// The decimal representation of an integer, with `-` before a negative one.
pub open spec fn signed_decimal(n: int) -> Seq<char> {
    if n < 0 {
        seq!['-'] + decimal((-n) as nat)
    } else {
        decimal(n as nat)
    }
}

/// Decimal string of a signed `n`.
pub fn signed_decimal_string(n: i64) -> (r: String)
    ensures
        r@ == signed_decimal(n as int),
{
    if n < 0 {
        let m: u64 = ((-(n + 1)) as u64) + 1;
        let mut v: Vec<char> = vec!['-'];
        push_decimal(&mut v, m);
        string_of(&v)
    } else {
        decimal_string(n as u64)
    }
}

proof fn lemma_digits_value_prefix(s: Seq<char>, k: int)
    requires
        0 <= k <= s.len(),
        all_digits(s),
    ensures
        digits_value(s.take(k)) <= digits_value(s),
    decreases s.len(),
{
    if k < s.len() {
        let t = s.drop_last();
        assert(t.take(k) =~= s.take(k));
        assert forall|i: int| 0 <= i < t.len() implies is_digit(#[trigger] t[i]) by {
            assert(t[i] == s[i]);
        }
        lemma_digits_value_prefix(t, k);
        assert(is_digit(s[s.len() - 1]));
    } else {
        assert(s.take(k) =~= s);
    }
}

/// `<u16 as FromStr>::from_str` on the characters `v`.
pub fn parse_u16_chars(v: &Vec<char>) -> (r: Option<u16>)
    ensures
        r == parse_u16(v@),
{
    let start: usize = if v.len() > 0 && v[0] == '+' { 1 } else { 0 };
    let ghost d = if v@.len() > 0 && v@[0] == '+' { v@.drop_first() } else { v@ };
    assert(d =~= v@.skip(start as int));
    if start >= v.len() {
        return None;
    }
    let mut val: u32 = 0;
    let mut i: usize = start;
    while i < v.len()
        invariant
            start <= i <= v.len(),
            d == v@.skip(start as int),
            d == (if v@.len() > 0 && v@[0] == '+' { v@.drop_first() } else { v@ }),
            val <= 0xffff,
            val == digits_value(d.take(i - start)),
            all_digits(d.take(i - start)),
        decreases v.len() - i,
    {
        let c = v[i];
        assert(d[i - start] == c);
        if !('0' <= c && c <= '9') {
            assert(!is_digit(d[i - start]));
            assert(!all_digits(d));
            return None;
        }
        let ghost pre = d.take(i - start);
        assert(d.take(i - start + 1) =~= pre.push(c));
        assert(d.take(i - start + 1).drop_last() =~= pre);
        val = val * 10 + (c as u32 - '0' as u32);
        i = i + 1;
        assert(val == digits_value(d.take(i - start)));
        if val > 0xffff {
            proof {
                if all_digits(d) {
                    lemma_digits_value_prefix(d, i - start);
                }
            }
            return None;
        }
    }
    assert(d.take(i - start) =~= d);
    Some(val as u16)
}

/// `s.starts_with(p)`.
pub fn starts_with_chars(s: &Vec<char>, p: &Vec<char>) -> (r: bool)
    ensures
        r == starts_with(s@, p@),
{
    occurs_at_exec(s, p, 0)
}

/// `s.ends_with(p)`.
pub fn ends_with_chars(s: &Vec<char>, p: &Vec<char>) -> (r: bool)
    ensures
        r == ends_with(s@, p@),
{
    if p.len() > s.len() {
        return false;
    }
    occurs_at_exec(s, p, s.len() - p.len())
}

/// `p` occurs in `s` at position `at`.
pub fn occurs_at_exec(s: &Vec<char>, p: &Vec<char>, at: usize) -> (r: bool)
    ensures
        r == occurs_at(s@, p@, at as int),
{
    if at > s.len() || p.len() > s.len() - at {
        return false;
    }
    let mut k: usize = 0;
    while k < p.len()
        invariant
            k <= p.len(),
            at + p.len() <= s.len(),
            forall|m: int| 0 <= m < k ==> s@[at + m] == p@[m],
        decreases p.len() - k,
    {
        if s[at + k] != p[k] {
            assert(s@.subrange(at as int, at + p.len())[k as int] != p@[k as int]);
            return false;
        }
        k = k + 1;
    }
    assert(s@.subrange(at as int, at + p.len()) =~= p@);
    true
}

/// `s.find(p)`: the first position at which `p` occurs.
pub fn find_chars(s: &Vec<char>, p: &Vec<char>) -> (r: Option<usize>)
    ensures
        match r {
            Some(i) => find(s@, p@) == Some(i as int) && occurs_at(s@, p@, i as int),
            None => find(s@, p@) is None && !contains(s@, p@),
        },
{
    reveal(find);
    if p.len() > s.len() {
        return None;
    }
    let last = s.len() - p.len();
    let mut i: usize = 0;
    loop
        invariant
            last == s.len() - p.len(),
            i <= last,
            forall|j: int| 0 <= j < i ==> !occurs_at(s@, p@, j),
        ensures
            forall|j: int| 0 <= j <= last ==> !occurs_at(s@, p@, j),
        decreases last - i,
    {
        if occurs_at_exec(s, p, i) {
            proof {
                reveal(find);
                let w = choose|k: int| occurs_at(s@, p@, k) && forall|j: int| 0 <= j < k ==> !occurs_at(s@, p@, j);
                assert(occurs_at(s@, p@, i as int) && forall|j: int| 0 <= j < i ==> !occurs_at(s@, p@, j));
                assert(w == i) by {
                    if w < i {
                        assert(!occurs_at(s@, p@, w));
                    }
                    if w > i {
                        assert(!occurs_at(s@, p@, i as int));
                    }
                }
            }
            return Some(i);
        }
        if i == last {
            break;
        }
        i = i + 1;
    }
    assert(!contains(s@, p@));
    None
}

/// `s.contains(p)`.
pub fn contains_chars(s: &Vec<char>, p: &Vec<char>) -> (r: bool)
    ensures
        r == contains(s@, p@),
{
    match find_chars(s, p) {
        Some(_) => true,
        None => false,
    }
}

// ---------------------------------------------------------------------------
// Executable operations on strings

/// The characters of `s`, in order.
pub fn chars_of(s: &str) -> (v: Vec<char>)
    ensures
        v@ == s@,
{
    let mut v: Vec<char> = Vec::new();
    for c in it: s.chars()
        invariant
            v@ == it.seq().take(it.index() as int),
            it.seq() == s@,
    {
        v.push(c);
    }
    v
}

/// A `String` holding exactly the characters `v`.
pub fn string_of(v: &Vec<char>) -> (s: String)
    ensures
        s@ == v@,
{
    let mut s = String::new();
    let mut i: usize = 0;
    while i < v.len()
        invariant
            i <= v.len(),
            s@ == v@.take(i as int),
        decreases v.len() - i,
    {
        s.push(v[i]);
        i = i + 1;
        assert(s@ =~= v@.take(i as int));
    }
    assert(v@.take(v.len() as int) =~= v@);
    s
}

/// `a` and `b` hold the same characters.
pub fn eq_str(a: &str, b: &str) -> (r: bool)
    ensures
        r == (a@ == b@),
{
    let x = chars_of(a);
    let y = chars_of(b);
    eq_chars(&x, &y)
}

pub fn eq_chars(x: &Vec<char>, y: &Vec<char>) -> (r: bool)
    ensures
        r == (x@ == y@),
{
    if x.len() != y.len() {
        return false;
    }
    let mut i: usize = 0;
    while i < x.len()
        invariant
            x.len() == y.len(),
            i <= x.len(),
            forall|j: int| 0 <= j < i ==> x@[j] == y@[j],
        decreases x.len() - i,
    {
        if x[i] != y[i] {
            return false;
        }
        i = i + 1;
    }
    assert(x@ =~= y@);
    true
}

pub fn is_whitespace(c: char) -> (r: bool)
    ensures
        r == is_ws(c),
{
    ('\t' <= c && c <= '\r') || c == ' ' || c == '\u{85}' || c == '\u{a0}' || c == '\u{1680}'
        || ('\u{2000}' <= c && c <= '\u{200a}') || c == '\u{2028}' || c == '\u{2029}'
        || c == '\u{202f}' || c == '\u{205f}' || c == '\u{3000}'
}

pub fn to_lower(c: char) -> (r: char)
    ensures
        r == lower_char(c),
{
    if 'A' <= c && c <= 'Z' {
        ((c as u32 + 32) as u8) as char
    } else {
        c
    }
}


/// The trimmed, non-blank lines of `s` (`s.lines().map(trim).filter(non-empty)`).
pub fn nonblank_lines(s: &str) -> (r: Vec<String>)
    ensures
        string_views(r@) == trimmed_nonblank(lines(s@)),
{
    let v = chars_of(s);
    let ls = lines_chars(&v);
    let mut r: Vec<String> = Vec::new();
    let mut i: usize = 0;
    assert(string_views(r@) =~= trimmed_nonblank(views(ls@).take(0)));
    while i < ls.len()
        invariant
            i <= ls.len(),
            string_views(r@) == trimmed_nonblank(views(ls@).take(i as int)),
        decreases ls.len() - i,
    {
        let ghost before = string_views(r@);
        let t = trim_chars(&ls[i]);
        assert(views(ls@).take(i + 1).drop_last() =~= views(ls@).take(i as int));
        assert(views(ls@).take(i + 1).last() == ls@[i as int]@);
        if t.len() > 0 {
            r.push(string_of(&t));
            assert(string_views(r@) =~= before.push(t@));
        }
        i = i + 1;
    }
    assert(views(ls@).take(i as int) =~= views(ls@));
    r
}

/// The characters of each string.
pub fn chars_of_all(v: &Vec<String>) -> (r: Vec<Vec<char>>)
    ensures
        views(r@) == string_views(v@),
{
    let mut r: Vec<Vec<char>> = Vec::new();
    let mut i: usize = 0;
    while i < v.len()
        invariant
            i <= v.len(),
            views(r@) == string_views(v@).take(i as int),
        decreases v.len() - i,
    {
        let ghost before = views(r@);
        let c = chars_of(v[i].as_str());
        assert(c@ == v@[i as int]@);
        r.push(c);
        assert(views(r@) =~= before.push(v@[i as int]@));
        assert(string_views(v@).take(i + 1) =~= string_views(v@).take(i as int).push(v@[i as int]@));
        i = i + 1;
    }
    assert(string_views(v@).take(i as int) =~= string_views(v@));
    r
}

/// Whether `v` holds an element equal to `x`.
pub fn contains_elem(v: &Vec<String>, x: &Vec<char>) -> (r: bool)
    ensures
        r == string_views(v@).contains(x@),
{
    let mut i: usize = 0;
    while i < v.len()
        invariant
            i <= v.len(),
            forall|j: int| 0 <= j < i ==> v@[j]@ != x@,
        decreases v.len() - i,
    {
        let c = chars_of(v[i].as_str());
        if eq_chars(&c, x) {
            assert(string_views(v@)[i as int] == x@);
            return true;
        }
        i = i + 1;
    }
    assert forall|j: int| 0 <= j < string_views(v@).len() implies string_views(v@)[j] != x@ by {
        assert(string_views(v@)[j] == v@[j]@);
    }
    false
}

} // verus!

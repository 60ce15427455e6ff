//! Character-level building blocks: whitespace, trimming, splitting on a
//! separator, breaking a text into lines, and ASCII case folding.
//!
//! All contracts speak of `Seq<char>`, the view of `str`, `String` and
//! `[char]` alike.

use vstd::prelude::*;
use vstd::slice::slice_subrange;
use vstd::string::StringExecFns;

verus! {

/// Whether `c` is whitespace: one of the characters that Unicode marks
/// `White_Space`.
pub open spec fn is_space(c: char) -> bool {
    let n = c as u32;
    ||| 0x09 <= n <= 0x0D
    ||| n == 0x20
    ||| n == 0x85
    ||| n == 0xA0
    ||| n == 0x1680
    ||| 0x2000 <= n <= 0x200A
    ||| n == 0x2028
    ||| n == 0x2029
    ||| n == 0x202F
    ||| n == 0x205F
    ||| n == 0x3000
}

/// `s` without its leading whitespace.
pub open spec fn trim_start_of(s: Seq<char>) -> Seq<char>
    decreases s.len(),
{
    if s.len() > 0 && is_space(s[0]) {
        trim_start_of(s.drop_first())
    } else {
        s
    }
}

/// `s` without its trailing whitespace.
pub open spec fn trim_end_of(s: Seq<char>) -> Seq<char>
    decreases s.len(),
{
    if s.len() > 0 && is_space(s.last()) {
        trim_end_of(s.drop_last())
    } else {
        s
    }
}

/// `s` without leading and trailing whitespace.
pub open spec fn trimmed(s: Seq<char>) -> Seq<char> {
    trim_end_of(trim_start_of(s))
}

/// The fields of `s` when cut at every occurrence of `sep`.
///
/// The empty text has one empty field; a separator opens a new empty field;
/// any other character extends the last field. There is always at least one
/// field, and no field holds the separator.
pub open spec fn split_on(s: Seq<char>, sep: char) -> Seq<Seq<char>>
    decreases s.len(),
{
    if s.len() == 0 {
        seq![Seq::<char>::empty()]
    } else {
        let before = split_on(s.drop_last(), sep);
        if s.last() == sep {
            before.push(Seq::<char>::empty())
        } else {
            before.update(before.len() - 1, before.last().push(s.last()))
        }
    }
}

/// `s` without one trailing carriage return, if it ends in one.
pub open spec fn strip_cr(s: Seq<char>) -> Seq<char> {
    if s.len() > 0 && s.last() == '\r' {
        s.drop_last()
    } else {
        s
    }
}

/// The lines of `s`.
///
/// A line ends at a line feed. A carriage return directly before that line
/// feed belongs to the line ending. What follows the last line feed is a line
/// of its own unless it is empty.
pub open spec fn lines_of(s: Seq<char>) -> Seq<Seq<char>> {
    let parts = split_on(s, '\n');
    let ended = Seq::new((parts.len() - 1) as nat, |i: int| strip_cr(parts[i]));
    if parts.last().len() == 0 {
        ended
    } else {
        ended.push(parts.last())
    }
}

/// `c` with the ASCII capitals mapped to their small letters.
pub open spec fn ascii_lower(c: char) -> char {
    if 'A' <= c <= 'Z' {
        ((c as u32) + 32) as char
    } else {
        c
    }
}

/// Whether `a` and `b` are equal up to the case of ASCII letters.
pub open spec fn same_ignoring_ascii_case(a: Seq<char>, b: Seq<char>) -> bool {
    &&& a.len() == b.len()
    &&& forall|i: int| 0 <= i < a.len() ==> ascii_lower(#[trigger] a[i]) == ascii_lower(b[i])
}

/// The views of a sequence of character slices.
pub open spec fn views_of(fields: Seq<&[char]>) -> Seq<Seq<char>> {
    Seq::new(fields.len(), |i: int| fields[i]@)
}

/// `fields` put together again with `sep` between each two neighbours.
pub open spec fn join_with(fields: Seq<Seq<char>>, sep: char) -> Seq<char>
    decreases fields.len(),
{
    if fields.len() == 0 {
        Seq::empty()
    } else if fields.len() == 1 {
        fields[0]
    } else {
        join_with(fields.drop_last(), sep).push(sep) + fields.last()
    }
}

/// Cutting a text gives at least one field.
pub proof fn lemma_split_on_nonempty(s: Seq<char>, sep: char)
    ensures
        split_on(s, sep).len() >= 1,
    decreases s.len(),
{
    if s.len() > 0 {
        lemma_split_on_nonempty(s.drop_last(), sep);
    }
}

/// No field of a cut text holds the separator.
pub proof fn lemma_split_on_fields_hold_no_separator(s: Seq<char>, sep: char)
    ensures
        forall|i: int, j: int|
            0 <= i < split_on(s, sep).len() && 0 <= j < split_on(s, sep)[i].len()
                ==> #[trigger] split_on(s, sep)[i][j] != sep,
    decreases s.len(),
{
    if s.len() > 0 {
        lemma_split_on_nonempty(s.drop_last(), sep);
        lemma_split_on_fields_hold_no_separator(s.drop_last(), sep);
    }
}

/// Cutting loses nothing: the fields of a text, put together again with the
/// separator between them, are the text.
pub proof fn lemma_join_with_undoes_split_on(s: Seq<char>, sep: char)
    ensures
        join_with(split_on(s, sep), sep) == s,
    decreases s.len(),
{
    if s.len() > 0 {
        let before = split_on(s.drop_last(), sep);
        let fields = split_on(s, sep);
        lemma_split_on_nonempty(s.drop_last(), sep);
        lemma_join_with_undoes_split_on(s.drop_last(), sep);
        if s.last() == sep {
            assert(fields.drop_last() =~= before);
            assert(join_with(fields, sep) =~= s.drop_last().push(sep));
        } else if before.len() == 1 {
            assert(join_with(fields, sep) =~= s.drop_last().push(s.last()));
        } else {
            assert(fields.drop_last() =~= before.drop_last());
            assert(join_with(fields, sep) =~= join_with(before, sep).push(s.last()));
        }
        assert(s.drop_last().push(s.last()) =~= s);
    }
}

/// What is left after trimming at the front does not begin with whitespace.
pub proof fn lemma_trim_start_of_shape(s: Seq<char>)
    ensures
        trim_start_of(s).len() == 0 || !is_space(trim_start_of(s)[0]),
    decreases s.len(),
{
    if s.len() > 0 && is_space(s[0]) {
        lemma_trim_start_of_shape(s.drop_first());
    }
}

/// What is left after trimming at the end is the beginning of the text and
/// does not end with whitespace.
pub proof fn lemma_trim_end_of_shape(s: Seq<char>)
    ensures
        trim_end_of(s).len() <= s.len(),
        trim_end_of(s) == s.take(trim_end_of(s).len() as int),
        trim_end_of(s).len() == 0 || !is_space(trim_end_of(s).last()),
    decreases s.len(),
{
    if s.len() > 0 && is_space(s.last()) {
        lemma_trim_end_of_shape(s.drop_last());
        let n = trim_end_of(s).len() as int;
        assert(s.drop_last().take(n) =~= s.take(n));
    } else {
        assert(s.take(s.len() as int) =~= s);
    }
}

/// Whether `s` holds whitespace only.
pub open spec fn all_space(s: Seq<char>) -> bool {
    forall|i: int| 0 <= i < s.len() ==> is_space(#[trigger] s[i])
}

/// Trimming at the front takes away exactly the whitespace that stands before
/// a text that does not begin with whitespace.
pub proof fn lemma_trim_start_of_padding(pad: Seq<char>, rest: Seq<char>)
    requires
        all_space(pad),
        rest.len() == 0 || !is_space(rest[0]),
    ensures
        trim_start_of(pad + rest) == rest,
    decreases pad.len(),
{
    if pad.len() == 0 {
        assert(pad + rest =~= rest);
    } else {
        assert((pad + rest)[0] == pad[0]);
        assert((pad + rest).drop_first() =~= pad.drop_first() + rest);
        assert forall|i: int| 0 <= i < pad.drop_first().len() implies is_space(
            #[trigger] pad.drop_first()[i],
        ) by {
            assert(pad.drop_first()[i] == pad[i + 1]);
        }
        lemma_trim_start_of_padding(pad.drop_first(), rest);
    }
}

/// Trimming at the end takes away exactly the whitespace that stands behind a
/// text that does not end with whitespace.
pub proof fn lemma_trim_end_of_padding(rest: Seq<char>, pad: Seq<char>)
    requires
        all_space(pad),
        rest.len() == 0 || !is_space(rest.last()),
    ensures
        trim_end_of(rest + pad) == rest,
    decreases pad.len(),
{
    if pad.len() == 0 {
        assert(rest + pad =~= rest);
    } else {
        assert((rest + pad).last() == pad.last());
        assert((rest + pad).drop_last() =~= rest + pad.drop_last());
        assert forall|i: int| 0 <= i < pad.drop_last().len() implies is_space(
            #[trigger] pad.drop_last()[i],
        ) by {
            assert(pad.drop_last()[i] == pad[i]);
        }
        lemma_trim_end_of_padding(rest, pad.drop_last());
    }
}

/// Trimming gives back a word that neither begins nor ends with whitespace,
/// whatever whitespace stands around it.
pub proof fn lemma_trimmed_drops_padding(left: Seq<char>, word: Seq<char>, right: Seq<char>)
    requires
        all_space(left),
        all_space(right),
        word.len() > 0,
        !is_space(word[0]),
        !is_space(word.last()),
    ensures
        trimmed(left + word + right) == word,
{
    assert(left + word + right =~= left + (word + right));
    assert((word + right)[0] == word[0]);
    lemma_trim_start_of_padding(left, word + right);
    lemma_trim_end_of_padding(word, right);
}

/// A trimmed text neither begins nor ends with whitespace, so trimming it
/// again changes nothing.
pub proof fn lemma_trimmed_is_trimmed(s: Seq<char>)
    ensures
        trimmed(s).len() == 0 || (!is_space(trimmed(s)[0]) && !is_space(trimmed(s).last())),
        trimmed(trimmed(s)) == trimmed(s),
{
    lemma_trim_start_of_shape(s);
    lemma_trim_end_of_shape(trim_start_of(s));
}

/// Whether `c` is whitespace.
pub fn char_is_space(c: char) -> (b: bool)
    ensures
        b == is_space(c),
{
    let n: u32 = c as u32;
    (0x09 <= n && n <= 0x0D) || n == 0x20 || n == 0x85 || n == 0xA0 || n == 0x1680 || (0x2000 <= n
        && n <= 0x200A) || n == 0x2028 || n == 0x2029 || n == 0x202F || n == 0x205F || n == 0x3000
}

/// Folds an ASCII capital to its small letter and leaves every other
/// character as it is.
pub fn char_ascii_lower(c: char) -> (r: char)
    ensures
        r == ascii_lower(c),
{
    if 'A' <= c && c <= 'Z' {
        let n: u8 = c as u8;
        (n + 32) as char
    } else {
        c
    }
}

/// The characters of `s`, in order.
pub fn chars_of(s: &str) -> (v: Vec<char>)
    ensures
        v@ == s@,
{
    let mut v: Vec<char> = Vec::new();
    for c in it: s.chars()
        invariant
            it.seq() == s@,
            v@ == s@.take(it.index() as int),
    {
        v.push(c);
        assert(s@.take(it.index() + 1) =~= s@.take(it.index() as int).push(c));
    }
    assert(s@.take(s@.len() as int) =~= s@);
    v
}

/// `String::push` of the standard library: the character is appended at the
/// end, and what stood before it is unchanged.
pub assume_specification[ String::push ](s: &mut String, ch: char)
    ensures
        final(s)@ == old(s)@.push(ch),
;

/// Appends the characters of `tail` to `s`.
pub fn push_chars(s: &mut String, tail: &[char])
    ensures
        final(s)@ == old(s)@ + tail@,
{
    let n: usize = tail.len();
    let mut i: usize = 0;
    while i < n
        invariant
            n == tail@.len(),
            i <= n,
            s@ == old(s)@ + tail@.take(i as int),
        decreases n - i,
    {
        s.push(tail[i]);
        assert(tail@.take(i + 1) =~= tail@.take(i as int).push(tail@[i as int]));
        assert(s@ =~= old(s)@ + tail@.take(i + 1));
        i += 1;
    }
    assert(tail@.take(n as int) =~= tail@);
}

/// A string made of the characters of `chars`.
pub fn string_of(chars: &[char]) -> (s: String)
    ensures
        s@ == chars@,
{
    let mut s = String::new();
    push_chars(&mut s, chars);
    assert(Seq::<char>::empty() + chars@ =~= chars@);
    s
}

/// `s` without its leading whitespace.
pub fn trim_start(s: &[char]) -> (r: &[char])
    ensures
        r@ == trim_start_of(s@),
{
    let n: usize = s.len();
    let mut i: usize = 0;
    assert(s@.subrange(0, n as int) =~= s@);
    while i < n && char_is_space(s[i])
        invariant
            n == s@.len(),
            i <= n,
            trim_start_of(s@) == trim_start_of(s@.subrange(i as int, n as int)),
        decreases n - i,
    {
        assert(s@.subrange(i as int, n as int).drop_first() =~= s@.subrange(i + 1, n as int));
        i += 1;
    }
    slice_subrange(s, i, n)
}

/// `s` without its trailing whitespace.
pub fn trim_end(s: &[char]) -> (r: &[char])
    ensures
        r@ == trim_end_of(s@),
{
    let mut n: usize = s.len();
    assert(s@.subrange(0, n as int) =~= s@);
    while n > 0 && char_is_space(s[n - 1])
        invariant
            n <= s@.len(),
            trim_end_of(s@) == trim_end_of(s@.subrange(0, n as int)),
        decreases n,
    {
        assert(s@.subrange(0, n as int).drop_last() =~= s@.subrange(0, n - 1));
        n -= 1;
    }
    slice_subrange(s, 0, n)
}

/// `s` without leading and trailing whitespace.
pub fn trim(s: &[char]) -> (r: &[char])
    ensures
        r@ == trimmed(s@),
{
    trim_end(trim_start(s))
}

/// Cuts `s` at every occurrence of `sep`.
pub fn split(s: &[char], sep: char) -> (fields: Vec<&[char]>)
    ensures
        views_of(fields@) == split_on(s@, sep),
{
    let n: usize = s.len();
    let mut fields: Vec<&[char]> = Vec::new();
    let mut start: usize = 0;
    let mut i: usize = 0;
    assert(s@.take(0).len() == 0);
    assert(s@.subrange(0, 0) =~= Seq::<char>::empty());
    assert(views_of(fields@).push(s@.subrange(0, 0)) =~= split_on(s@.take(0), sep));
    while i < n
        invariant
            n == s@.len(),
            start <= i <= n,
            views_of(fields@).push(s@.subrange(start as int, i as int)) == split_on(
                s@.take(i as int),
                sep,
            ),
        decreases n - i,
    {
        let ghost before = split_on(s@.take(i as int), sep);
        let ghost shown = views_of(fields@);
        assert(s@.take(i + 1).drop_last() =~= s@.take(i as int));
        assert(before.last() == s@.subrange(start as int, i as int));
        if s[i] == sep {
            fields.push(slice_subrange(s, start, i));
            start = i + 1;
            assert(views_of(fields@) =~= before);
            assert(s@.subrange(start as int, i + 1) =~= Seq::<char>::empty());
        } else {
            assert(s@.subrange(start as int, i + 1) =~= s@.subrange(start as int, i as int).push(
                s@[i as int],
            ));
            assert(shown.push(s@.subrange(start as int, i + 1)) =~= before.update(
                before.len() - 1,
                before.last().push(s@[i as int]),
            ));
        }
        i += 1;
    }
    assert(s@.take(n as int) =~= s@);
    let ghost shown = views_of(fields@);
    fields.push(slice_subrange(s, start, n));
    assert(views_of(fields@) =~= shown.push(s@.subrange(start as int, n as int)));
    fields
}

/// Breaks `s` into its lines.
pub fn lines(s: &[char]) -> (out: Vec<&[char]>)
    ensures
        views_of(out@) == lines_of(s@),
{
    let parts = split(s, '\n');
    proof {
        lemma_split_on_nonempty(s@, '\n');
    }
    let ghost parts_view = split_on(s@, '\n');
    let last: usize = parts.len() - 1;
    let mut out: Vec<&[char]> = Vec::new();
    let mut k: usize = 0;
    while k < last
        invariant
            last == parts@.len() - 1,
            k <= last,
            views_of(parts@) == parts_view,
            views_of(out@) == Seq::new(k as nat, |i: int| strip_cr(parts_view[i])),
        decreases last - k,
    {
        let part: &[char] = parts[k];
        let m: usize = part.len();
        assert(views_of(parts@)[k as int] == part@);
        let line: &[char] = if m > 0 && part[m - 1] == '\r' {
            slice_subrange(part, 0, m - 1)
        } else {
            part
        };
        assert(part@.subrange(0, m - 1) =~= part@.drop_last());
        let ghost shown = views_of(out@);
        out.push(line);
        assert(views_of(out@) =~= shown.push(strip_cr(parts_view[k as int])));
        assert(views_of(out@) =~= Seq::new((k + 1) as nat, |i: int| strip_cr(parts_view[i])));
        k += 1;
    }
    let rest: &[char] = parts[last];
    assert(views_of(parts@)[last as int] == rest@);
    if rest.len() > 0 {
        let ghost shown = views_of(out@);
        out.push(rest);
        assert(views_of(out@) =~= shown.push(parts_view.last()));
    }
    out
}

/// Whether `a` and `b` are equal up to the case of ASCII letters.
pub fn eq_ignore_ascii_case(a: &[char], b: &[char]) -> (r: bool)
    ensures
        r == same_ignoring_ascii_case(a@, b@),
{
    let n: usize = a.len();
    if n != b.len() {
        return false;
    }
    let mut i: usize = 0;
    while i < n
        invariant
            n == a@.len(),
            n == b@.len(),
            i <= n,
            forall|j: int| 0 <= j < i ==> ascii_lower(#[trigger] a@[j]) == ascii_lower(b@[j]),
        decreases n - i,
    {
        if char_ascii_lower(a[i]) != char_ascii_lower(b[i]) {
            return false;
        }
        i += 1;
    }
    true
}

/// Whether `a` and `b` hold the same characters.
pub fn eq_chars(a: &[char], b: &[char]) -> (r: bool)
    ensures
        r == (a@ == b@),
{
    let n: usize = a.len();
    if n != b.len() {
        return false;
    }
    let mut i: usize = 0;
    while i < n
        invariant
            n == a@.len(),
            n == b@.len(),
            i <= n,
            forall|j: int| 0 <= j < i ==> a@[j] == b@[j],
        decreases n - i,
    {
        if a[i] != b[i] {
            return false;
        }
        i += 1;
    }
    assert(a@ =~= b@);
    true
}

/// Whether `a` equals `word` up to the case of ASCII letters.
pub fn matches_ignoring_ascii_case(a: &[char], word: &str) -> (r: bool)
    ensures
        r == same_ignoring_ascii_case(a@, word@),
{
    let n: usize = a.len();
    let mut i: usize = 0;
    let mut same: bool = true;
    for c in it: word.chars()
        invariant
            it.seq() == word@,
            n == a@.len(),
            same ==> i == it.index() && i <= n,
            same ==> forall|j: int| 0 <= j < i ==> ascii_lower(#[trigger] a@[j]) == ascii_lower(word@[j]),
            !same ==> !same_ignoring_ascii_case(a@, word@),
    {
        if same {
            if i < n && char_ascii_lower(a[i]) == char_ascii_lower(c) {
                i += 1;
            } else {
                same = false;
            }
        }
    }
    same && i == n
}

/// What follows `word` in `a`, if `a` begins with `word`.
pub fn strip_prefix<'a>(a: &'a [char], word: &str) -> (r: Option<&'a [char]>)
    ensures
        match r {
            Some(rest) => word@.is_prefix_of(a@) && rest@ == a@.skip(word@.len() as int),
            None => !word@.is_prefix_of(a@),
        },
{
    let n: usize = a.len();
    let mut i: usize = 0;
    let mut same: bool = true;
    for c in it: word.chars()
        invariant
            it.seq() == word@,
            n == a@.len(),
            same ==> i == it.index() && i <= n,
            same ==> forall|j: int| 0 <= j < i ==> a@[j] == word@[j],
            !same ==> !word@.is_prefix_of(a@),
    {
        if same {
            if i < n && a[i] == c {
                i += 1;
            } else {
                same = false;
                assert(!word@.is_prefix_of(a@)) by {
                    if word@.is_prefix_of(a@) {
                        assert(a@.subrange(0, word@.len() as int)[i as int] == a@[i as int]);
                    }
                }
            }
        }
    }
    if same {
        assert(word@ =~= a@.subrange(0, word@.len() as int));
        Some(slice_subrange(a, i, n))
    } else {
        None
    }
}

} // verus!

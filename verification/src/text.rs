//! Character-level text functions shared by the parsers and the formatters.

use vstd::prelude::*;

verus! {

/// `String::push` appends the given character to the end of the string.
pub assume_specification[ String::push ](s: &mut String, c: char)
    ensures
        final(s)@ == old(s)@.push(c),
;

/// The characters of `s`, in order.
pub fn chars_of(s: &str) -> (out: Vec<char>)
    ensures
        out@ == s@,
{
    let mut out: Vec<char> = Vec::new();
    for c in it: s.chars()
        invariant
            out@ == it.seq().take(it.index() as int),
            it.seq() == s@,
    {
        out.push(c);
    }
    out
}

/// The string whose characters are `s`.
pub fn string_of(s: &[char]) -> (out: String)
    ensures
        out@ == s@,
{
    let mut out = String::new();
    for i in 0..s.len()
        invariant
            out@ == s@.take(i as int),
    {
        out.push(s[i]);
    }
    out
}

/// Appends `s` to `out`.
pub fn push_text(out: &mut String, s: &str)
    ensures
        final(out)@ == old(out)@ + s@,
{
    let ghost before = out@;
    for c in it: s.chars()
        invariant
            out@ == before + it.seq().take(it.index() as int),
            it.seq() == s@,
    {
        out.push(c);
        assert(out@ =~= before + it.seq().take(it.index() + 1));
    }
    assert(out@ =~= before + s@);
}

/// `a` followed by `b`.
pub fn appended(a: &str, b: &str) -> (r: String)
    ensures
        r@ == a@ + b@,
{
    let mut out = a.to_string();
    push_text(&mut out, b);
    out
}

/// Whether `c` has the Unicode `White_Space` property.
pub open spec fn is_white(c: char) -> bool {
    let n = c as int;
    ||| 0x9 <= n <= 0xd
    ||| n == 0x20
    ||| n == 0x85
    ||| n == 0xa0
    ||| n == 0x1680
    ||| 0x2000 <= n <= 0x200a
    ||| n == 0x2028
    ||| n == 0x2029
    ||| n == 0x202f
    ||| n == 0x205f
    ||| n == 0x3000
}

/// Whether `c` has the Unicode `White_Space` property.
pub fn white(c: char) -> (r: bool)
    ensures
        r == is_white(c),
{
    ('\u{9}' <= c && c <= '\u{d}') || c == ' ' || c == '\u{85}' || c == '\u{a0}' || c == '\u{1680}'
        || ('\u{2000}' <= c && c <= '\u{200a}') || c == '\u{2028}' || c == '\u{2029}' || c
        == '\u{202f}' || c == '\u{205f}' || c == '\u{3000}'
}

/// `c`, in lower case where it is an ASCII letter.
pub open spec fn lower(c: char) -> char {
    if 'A' <= c <= 'Z' {
        (c as int + 32) as char
    } else {
        c
    }
}

/// `c` in lower case where it is an ASCII letter.
pub fn ascii_lower(c: char) -> (r: char)
    ensures
        r == lower(c),
{
    if 'A' <= c && c <= 'Z' {
        (c as u8 + 32) as char
    } else {
        c
    }
}

/// `s` with every ASCII letter in lower case.
pub open spec fn lower_all(s: Seq<char>) -> Seq<char> {
    s.map_values(|c: char| lower(c))
}

/// Whether the two texts are equal once their ASCII letters are in lower case.
pub fn eq_ignore_case(a: &[char], b: &[char]) -> (r: bool)
    ensures
        r == (lower_all(a@) == lower_all(b@)),
{
    if a.len() != b.len() {
        assert(lower_all(a@).len() != lower_all(b@).len());
        return false;
    }
    for i in 0..a.len()
        invariant
            a.len() == b.len(),
            forall|j: int| 0 <= j < i ==> lower(a@[j]) == lower(b@[j]),
    {
        if ascii_lower(a[i]) != ascii_lower(b[i]) {
            assert(lower_all(a@)[i as int] != lower_all(b@)[i as int]);
            return false;
        }
    }
    assert(lower_all(a@) =~= lower_all(b@));
    true
}

/// Whether the two texts are equal.
pub fn same(a: &[char], b: &[char]) -> (r: bool)
    ensures
        r == (a@ == b@),
{
    if a.len() != b.len() {
        return false;
    }
    for i in 0..a.len()
        invariant
            a.len() == b.len(),
            forall|j: int| 0 <= j < i ==> a@[j] == b@[j],
    {
        if a[i] != b[i] {
            return false;
        }
    }
    assert(a@ =~= b@);
    true
}

/// Whether the two texts are equal.
pub fn same_str(a: &[char], b: &str) -> (r: bool)
    ensures
        r == (a@ == b@),
{
    let chars = chars_of(b);
    same(a, chars.as_slice())
}

/// `s` without its leading white space.
pub open spec fn skip_white(s: Seq<char>) -> Seq<char>
    decreases s.len(),
{
    if s.len() > 0 && is_white(s[0]) {
        skip_white(s.drop_first())
    } else {
        s
    }
}

/// `s` without its trailing white space.
pub open spec fn drop_white(s: Seq<char>) -> Seq<char>
    decreases s.len(),
{
    if s.len() > 0 && is_white(s.last()) {
        drop_white(s.drop_last())
    } else {
        s
    }
}

/// `s` without its leading and trailing white space.
pub open spec fn trimmed(s: Seq<char>) -> Seq<char> {
    drop_white(skip_white(s))
}

/// The longest suffix of `s` that does not begin with white space.
pub fn trim_start(s: &[char]) -> (r: &[char])
    ensures
        r@ == skip_white(s@),
{
    let mut i: usize = 0;
    assert(s@.skip(0) =~= s@);
    while i < s.len() && white(s[i])
        invariant
            i <= s.len(),
            skip_white(s@) == skip_white(s@.skip(i as int)),
        decreases s.len() - i,
    {
        assert(s@.skip(i as int).drop_first() =~= s@.skip(i + 1));
        i += 1;
    }
    assert(s@.subrange(i as int, s@.len() as int) =~= s@.skip(i as int));
    vstd::slice::slice_subrange(s, i, s.len())
}

/// The longest prefix of `s` that does not end with white space.
pub fn trim_end(s: &[char]) -> (r: &[char])
    ensures
        r@ == drop_white(s@),
{
    let mut n: usize = s.len();
    assert(s@.take(n as int) =~= s@);
    while n > 0 && white(s[n - 1])
        invariant
            n <= s.len(),
            drop_white(s@) == drop_white(s@.take(n as int)),
        decreases n,
    {
        assert(s@.take(n as int).drop_last() =~= s@.take(n - 1));
        n -= 1;
    }
    assert(s@.subrange(0, n as int) =~= s@.take(n as int));
    vstd::slice::slice_subrange(s, 0, n)
}

/// `s` without its leading and trailing white space.
pub fn trim(s: &[char]) -> (r: &[char])
    ensures
        r@ == trimmed(s@),
{
    trim_end(trim_start(s))
}

/// White space at either end of a text does not count once it is trimmed.
pub proof fn trimmed_ignores_ends(s: Seq<char>, c: char)
    requires
        is_white(c),
    ensures
        trimmed(s.push(c)) == trimmed(s),
        trimmed(seq![c] + s) == trimmed(s),
{
    lemma_skip_push(s, c);
    assert((seq![c] + s).drop_first() =~= s);
    let t = skip_white(s);
    if t.len() == 0 {
        assert(skip_white(s.push(c)).len() == 0);
        assert(skip_white(s.push(c)) =~= t);
    } else {
        assert(t.push(c).drop_last() =~= t);
    }
}

proof fn lemma_skip_push(s: Seq<char>, c: char)
    requires
        is_white(c),
    ensures
        skip_white(s).len() == 0 ==> skip_white(s.push(c)).len() == 0,
        skip_white(s).len() > 0 ==> skip_white(s.push(c)) == skip_white(s).push(c),
    decreases s.len(),
{
    if s.len() == 0 {
        assert(s.push(c).drop_first() =~= s);
        assert(skip_white(s) == s);
    } else if is_white(s[0]) {
        assert(s.push(c).drop_first() =~= s.drop_first().push(c));
        lemma_skip_push(s.drop_first(), c);
    }
}

/// A trimmed text begins and ends with no white space.
pub proof fn trimmed_has_no_white_ends(s: Seq<char>)
    ensures
        trimmed(s).len() > 0 ==> !is_white(trimmed(s)[0]) && !is_white(trimmed(s).last()),
{
    lemma_skip_white(s);
    lemma_drop_white(skip_white(s));
}

proof fn lemma_drop_white(s: Seq<char>)
    ensures
        drop_white(s).len() <= s.len(),
        drop_white(s) == s.take(drop_white(s).len() as int),
        drop_white(s).len() > 0 ==> !is_white(drop_white(s).last()),
    decreases s.len(),
{
    if s.len() > 0 && is_white(s.last()) {
        lemma_drop_white(s.drop_last());
        let n = drop_white(s).len() as int;
        assert(s.drop_last().take(n) =~= s.take(n));
    } else {
        assert(s.take(s.len() as int) =~= s);
    }
}

/// How many characters stand before the first white space of `s`.
pub open spec fn word_len(s: Seq<char>) -> nat
    decreases s.len(),
{
    if s.len() > 0 && !is_white(s[0]) {
        1 + word_len(s.drop_first())
    } else {
        0
    }
}

/// The first word of `s` holds no white space, and white space or the end of `s` follows it.
pub proof fn lemma_word_len(s: Seq<char>)
    ensures
        word_len(s) <= s.len(),
        forall|i: int| 0 <= i < word_len(s) ==> !is_white(#[trigger] s[i]),
        word_len(s) < s.len() ==> is_white(s[word_len(s) as int]),
    decreases s.len(),
{
    if s.len() > 0 && !is_white(s[0]) {
        let t = s.drop_first();
        lemma_word_len(t);
        assert forall|i: int| 0 <= i < word_len(s) implies !is_white(#[trigger] s[i]) by {
            if i > 0 {
                assert(s[i] == t[i - 1]);
            }
        }
    }
}

/// What follows the leading white space of `s` is a tail of `s` that begins with none.
pub proof fn lemma_skip_white(s: Seq<char>)
    ensures
        skip_white(s).len() <= s.len(),
        skip_white(s) == s.skip(s.len() - skip_white(s).len()),
        skip_white(s).len() > 0 ==> !is_white(skip_white(s)[0]),
    decreases s.len(),
{
    if s.len() > 0 && is_white(s[0]) {
        lemma_skip_white(s.drop_first());
        let n = skip_white(s).len();
        assert(s.drop_first().skip(s.len() - 1 - n) =~= s.skip(s.len() - n));
    } else {
        assert(s.skip(0) =~= s);
    }
}

/// The words of `s`: its maximal runs of characters that are no white space.
pub open spec fn words(s: Seq<char>) -> Seq<Seq<char>>
    decreases s.len(),
{
    let t = skip_white(s);
    if t.len() == 0 {
        Seq::empty()
    } else {
        proof {
            lemma_skip_white(s);
            lemma_word_len(t);
        }
        seq![t.take(word_len(t) as int)] + words(t.skip(word_len(t) as int))
    }
}

/// The words of `s`, in order.
pub fn split_words<'a>(s: &'a [char]) -> (out: Vec<&'a [char]>)
    ensures
        out.deep_view() == words(s@),
{
    let mut out: Vec<&'a [char]> = Vec::new();
    let mut rest: &'a [char] = trim_start(s);
    proof {
        lemma_skip_white(s@);
        assert(skip_white(rest@) == rest@);
        assert(out.deep_view() + words(rest@) =~= words(s@));
    }
    while rest.len() > 0
        invariant
            skip_white(rest@) == rest@,
            out.deep_view() + words(rest@) == words(s@),
        decreases rest.len(),
    {
        let ghost before = rest@;
        let mut n: usize = 0;
        assert(rest@.skip(0) =~= rest@);
        while n < rest.len() && !white(rest[n])
            invariant
                n <= rest.len(),
                word_len(rest@) == n + word_len(rest@.skip(n as int)),
            decreases rest.len() - n,
        {
            assert(rest@.skip(n as int).drop_first() =~= rest@.skip(n + 1));
            n += 1;
        }
        proof {
            lemma_word_len(rest@);
            lemma_skip_white(rest@);
        }
        let word = vstd::slice::slice_subrange(rest, 0, n);
        let tail = vstd::slice::slice_subrange(rest, n, rest.len());
        assert(word@ =~= before.take(n as int));
        assert(tail@ =~= before.skip(n as int));
        let ghost done = out.deep_view();
        out.push(word);
        rest = trim_start(tail);
        proof {
            lemma_skip_white(tail@);
            lemma_skip_white(rest@);
            assert(skip_white(rest@) == rest@);
            assert(words(rest@) == words(tail@));
            assert(word.deep_view() =~= word@);
            assert(out.deep_view() =~= done.push(word@));
            assert(out.deep_view() + words(rest@) =~= done + (seq![word@] + words(tail@)));
        }
    }
    assert(out.deep_view() + words(rest@) =~= out.deep_view());
    out
}

/// The texts of `parts` in order, with one blank between each two.
pub open spec fn spaced(parts: Seq<Seq<char>>) -> Seq<char>
    decreases parts.len(),
{
    if parts.len() == 0 {
        Seq::empty()
    } else if parts.len() == 1 {
        parts[0]
    } else {
        spaced(parts.drop_last()) + seq![' '] + parts.last()
    }
}

/// Whether `s` is one word: not empty, and without white space.
pub open spec fn is_word(s: Seq<char>) -> bool {
    s.len() > 0 && forall|i: int| 0 <= i < s.len() ==> !is_white(#[trigger] s[i])
}

proof fn lemma_skip_joint(a: Seq<char>, c: char, b: Seq<char>)
    requires
        is_white(c),
    ensures
        skip_white(a + seq![c] + b) == if skip_white(a).len() == 0 {
            skip_white(b)
        } else {
            skip_white(a) + seq![c] + b
        },
    decreases a.len(),
{
    let all = a + seq![c] + b;
    if a.len() == 0 {
        assert(all.drop_first() =~= b);
    } else if is_white(a[0]) {
        assert(all.drop_first() =~= a.drop_first() + seq![c] + b);
        lemma_skip_joint(a.drop_first(), c, b);
    }
}

proof fn lemma_word_joint(a: Seq<char>, c: char, b: Seq<char>)
    requires
        is_white(c),
    ensures
        word_len(a + seq![c] + b) == word_len(a),
    decreases a.len(),
{
    let all = a + seq![c] + b;
    if a.len() > 0 && !is_white(a[0]) {
        assert(all.drop_first() =~= a.drop_first() + seq![c] + b);
        lemma_word_joint(a.drop_first(), c, b);
    }
}

/// White space parts words and does nothing else: the words of two texts with white space between
/// them are the words of the one and then those of the other.
pub proof fn words_split_at_white(a: Seq<char>, c: char, b: Seq<char>)
    requires
        is_white(c),
    ensures
        words(a + seq![c] + b) == words(a) + words(b),
    decreases a.len(),
{
    let all = a + seq![c] + b;
    let t = skip_white(a);
    lemma_skip_joint(a, c, b);
    lemma_skip_white(a);
    if t.len() == 0 {
        lemma_skip_white(b);
        assert(skip_white(skip_white(b)) == skip_white(b)) by {
            lemma_skip_white(skip_white(b));
        }
        assert(words(all) =~= words(a) + words(b));
    } else {
        let n = word_len(t) as int;
        lemma_word_len(t);
        lemma_word_joint(t, c, b);
        let rest = t.skip(n);
        assert((t + seq![c] + b).take(n) =~= t.take(n));
        assert((t + seq![c] + b).skip(n) =~= rest + seq![c] + b);
        words_split_at_white(rest, c, b);
        assert(words(all) =~= words(a) + words(b));
    }
}

proof fn lemma_single_word(w: Seq<char>)
    requires
        is_word(w),
    ensures
        words(w) == seq![w],
{
    lemma_word_len(w);
    let n = word_len(w) as int;
    if n < w.len() {
        assert(!is_white(w[n]));
    }
    assert(!is_white(w[0]));
    assert(w.take(n) =~= w);
    assert(w.skip(n) =~= Seq::<char>::empty());
    assert(words(w.skip(n)) =~= Seq::<Seq<char>>::empty());
    assert(words(w) =~= seq![w]);
}

/// Words that were joined by blanks are found again.
pub proof fn words_undo_spaced(parts: Seq<Seq<char>>)
    requires
        forall|i: int| 0 <= i < parts.len() ==> is_word(#[trigger] parts[i]),
    ensures
        words(spaced(parts)) == parts,
    decreases parts.len(),
{
    if parts.len() == 0 {
        assert(words(spaced(parts)) =~= parts);
    } else if parts.len() == 1 {
        lemma_single_word(parts[0]);
        assert(seq![parts[0]] =~= parts);
    } else {
        let rest = parts.drop_last();
        assert forall|i: int| 0 <= i < rest.len() implies is_word(#[trigger] rest[i]) by {
            assert(rest[i] == parts[i]);
        }
        words_undo_spaced(rest);
        words_split_at_white(spaced(rest), ' ', parts.last());
        lemma_single_word(parts[parts.len() - 1]);
        assert(rest + seq![parts.last()] =~= parts);
    }
}

/// Appends the characters of `s` to `out`.
pub fn push_all(out: &mut Vec<char>, s: &[char])
    ensures
        final(out)@ == old(out)@ + s@,
{
    let ghost before = out@;
    for i in 0..s.len()
        invariant
            out@ == before + s@.take(i as int),
    {
        out.push(s[i]);
    }
}

/// The texts of `parts` from index `from` on, with one blank between each two.
pub fn join_spaced(parts: &Vec<&[char]>, from: usize) -> (out: Vec<char>)
    requires
        from <= parts.len(),
    ensures
        out@ == spaced(parts.deep_view().skip(from as int)),
{
    let mut out: Vec<char> = Vec::new();
    let ghost all = parts.deep_view().skip(from as int);
    for i in from..parts.len()
        invariant
            from <= parts.len(),
            all == parts.deep_view().skip(from as int),
            out@ == spaced(all.take(i - from)),
    {
        if i > from {
            out.push(' ');
        }
        push_all(&mut out, parts[i]);
        proof {
            let now = all.take(i - from + 1);
            assert(now.drop_last() =~= all.take(i - from));
            assert(now.last() == parts[i as int]@);
            assert(out@ =~= spaced(now));
        }
    }
    assert(all.take(parts.len() - from) =~= all);
    out
}

/// The index of the first `c` in `s`.
pub fn find(s: &[char], c: char) -> (r: Option<usize>)
    ensures
        r.is_some() == s@.index_of_first(c).is_some(),
        r matches Some(i) ==> s@.index_of_first(c) == Some(i as int) && i < s@.len(),
{
    proof {
        s@.index_of_first_ensures(c);
    }
    for i in 0..s.len()
        invariant
            forall|j: int| 0 <= j < i ==> s@[j] != c,
            match s@.index_of_first(c) {
                Some(k) => 0 <= k < s@.len() && s@[k] == c && forall|j: int|
                    0 <= j < k ==> s@[j] != c,
                None => forall|j: int| 0 <= j < s@.len() ==> s@[j] != c,
            },
    {
        if s[i] == c {
            return Some(i);
        }
    }
    None
}

/// The index of the last `c` in `s`.
pub fn rfind(s: &[char], c: char) -> (r: Option<usize>)
    ensures
        r.is_some() == s@.index_of_last(c).is_some(),
        r matches Some(i) ==> s@.index_of_last(c) == Some(i as int) && i < s@.len(),
{
    proof {
        s@.index_of_last_ensures(c);
    }
    let mut n: usize = s.len();
    while n > 0
        invariant
            n <= s.len(),
            forall|j: int| n <= j < s@.len() ==> s@[j] != c,
            match s@.index_of_last(c) {
                Some(k) => 0 <= k < s@.len() && s@[k] == c && forall|j: int|
                    k < j < s@.len() ==> s@[j] != c,
                None => forall|j: int| 0 <= j < s@.len() ==> s@[j] != c,
            },
        decreases n,
    {
        n -= 1;
        if s[n] == c {
            return Some(n);
        }
    }
    None
}

/// The parts of `s` before and after its first `c`.
pub open spec fn cut(s: Seq<char>, c: char) -> Option<(Seq<char>, Seq<char>)> {
    match s.index_of_first(c) {
        Some(i) => Some((s.take(i), s.skip(i + 1))),
        None => None,
    }
}

/// The parts of `s` before and after its first `c`.
pub fn split_once<'a>(s: &'a [char], c: char) -> (r: Option<(&'a [char], &'a [char])>)
    ensures
        match r {
            Some(p) => cut(s@, c) == Some((p.0@, p.1@)),
            None => cut(s@, c).is_none(),
        },
{
    let n: usize = s.len();
    match find(s, c) {
        Some(i) => {
            let head = vstd::slice::slice_subrange(s, 0, i);
            let tail = vstd::slice::slice_subrange(s, i + 1, n);
            assert(head@ =~= s@.take(i as int));
            assert(tail@ =~= s@.skip(i + 1));
            Some((head, tail))
        },
        None => None,
    }
}

/// Whether `s` begins with `prefix`.
pub open spec fn begins_with(s: Seq<char>, prefix: Seq<char>) -> bool {
    prefix.len() <= s.len() && s.take(prefix.len() as int) == prefix
}

/// Whether `s` begins with `prefix`.
pub fn starts_with(s: &[char], prefix: &str) -> (r: bool)
    ensures
        r == begins_with(s@, prefix@),
{
    let p = chars_of(prefix);
    if p.len() > s.len() {
        return false;
    }
    let head = vstd::slice::slice_subrange(s, 0, p.len());
    assert(head@ =~= s@.take(p@.len() as int));
    same(head, p.as_slice())
}

/// The value of the digit `c`: its distance from `'0'`.
pub open spec fn digit_value(c: char) -> int {
    c as int - '0' as int
}

/// Whether `c` is one of the first `radix` decimal digits.
pub open spec fn is_digit(c: char, radix: int) -> bool {
    0 <= digit_value(c) < radix
}

/// The number that the digits of `s` write in base `radix`, the most significant one first.
pub open spec fn digits_value(s: Seq<char>, radix: int) -> int
    decreases s.len(),
{
    if s.len() == 0 {
        0
    } else {
        digits_value(s.drop_last(), radix) * radix + digit_value(s.last())
    }
}

/// Whether `s` is at least one digit of base `radix` and nothing else.
pub open spec fn is_number(s: Seq<char>, radix: int) -> bool {
    s.len() > 0 && forall|i: int| 0 <= i < s.len() ==> is_digit(#[trigger] s[i], radix)
}

/// `s` without one leading plus sign.
pub open spec fn unsigned_part(s: Seq<char>) -> Seq<char> {
    if s.len() > 0 && s[0] == '+' {
        s.drop_first()
    } else {
        s
    }
}

/// The number at most `max` that `s` writes in base `radix`, with an optional plus sign.
pub open spec fn unsigned_value(s: Seq<char>, radix: int, max: int) -> Option<int> {
    let d = unsigned_part(s);
    if is_number(d, radix) && digits_value(d, radix) <= max {
        Some(digits_value(d, radix))
    } else {
        None
    }
}

/// The number from `-max - 1` to `max` that `s` writes in base ten, with an optional sign.
pub open spec fn signed_value(s: Seq<char>, max: int) -> Option<int> {
    if s.len() > 0 && s[0] == '-' {
        let d = s.drop_first();
        if is_number(d, 10) && digits_value(d, 10) <= max + 1 {
            Some(-digits_value(d, 10))
        } else {
            None
        }
    } else {
        unsigned_value(s, 10, max)
    }
}

/// A longer run of digits writes no smaller number.
proof fn lemma_digits_grow(s: Seq<char>, n: int, radix: int)
    requires
        0 <= n <= s.len(),
        radix > 0,
        forall|i: int| 0 <= i < s.len() ==> is_digit(#[trigger] s[i], radix),
    ensures
        0 <= digits_value(s.take(n), radix) <= digits_value(s, radix),
    decreases s.len() - n, n,
{
    if n < s.len() {
        lemma_digits_grow(s, n + 1, radix);
        let t = s.take(n + 1);
        assert(t.drop_last() =~= s.take(n));
        assert(t.last() == s[n]);
        lemma_digits_nonneg(s.take(n), radix);
        let v = digits_value(s.take(n), radix);
        assert(v * radix >= v) by (nonlinear_arith)
            requires
                v >= 0,
                radix > 0,
        ;
    } else {
        assert(s.take(n) =~= s);
        lemma_digits_nonneg(s, radix);
    }
}

proof fn lemma_digits_nonneg(s: Seq<char>, radix: int)
    requires
        radix > 0,
        forall|i: int| 0 <= i < s.len() ==> is_digit(#[trigger] s[i], radix),
    ensures
        0 <= digits_value(s, radix),
    decreases s.len(),
{
    if s.len() > 0 {
        assert forall|i: int| 0 <= i < s.drop_last().len() implies is_digit(
            #[trigger] s.drop_last()[i],
            radix,
        ) by {
            assert(s.drop_last()[i] == s[i]);
        }
        lemma_digits_nonneg(s.drop_last(), radix);
        let v = digits_value(s.drop_last(), radix);
        assert(v * radix >= 0) by (nonlinear_arith)
            requires
                v >= 0,
                radix > 0,
        ;
        assert(is_digit(s[s.len() - 1], radix));
    }
}

/// Reads a run of digits as a number that is at most `max`.
fn parse_digits(s: &[char], radix: u64, max: u64) -> (r: Option<u64>)
    requires
        2 <= radix <= 10,
    ensures
        match r {
            Some(v) => is_number(s@, radix as int) && digits_value(s@, radix as int) == v && v
                <= max,
            None => !(is_number(s@, radix as int) && digits_value(s@, radix as int) <= max),
        },
{
    if s.len() == 0 {
        return None;
    }
    let mut v: u64 = 0;
    for i in 0..s.len()
        invariant
            2 <= radix <= 10,
            v <= max,
            v == digits_value(s@.take(i as int), radix as int),
            forall|j: int| 0 <= j < i ==> is_digit(#[trigger] s@[j], radix as int),
    {
        let c = s[i];
        if !('0' <= c && c <= '9') {
            assert(!is_digit(s@[i as int], radix as int));
            return None;
        }
        let d: u64 = (c as u8 - 48) as u64;
        if d >= radix {
            assert(!is_digit(s@[i as int], radix as int));
            return None;
        }
        assert(s@.take(i + 1).drop_last() =~= s@.take(i as int));
        assert(v * radix + d <= u64::MAX * 10 + 10) by (nonlinear_arith)
            requires
                v <= u64::MAX,
                2 <= radix <= 10,
                d < radix,
        ;
        let next: u128 = v as u128 * radix as u128 + d as u128;
        if next > max as u128 {
            proof {
                if is_number(s@, radix as int) {
                    lemma_digits_grow(s@, i + 1, radix as int);
                }
            }
            return None;
        }
        v = next as u64;
    }
    assert(s@.take(s@.len() as int) =~= s@);
    Some(v)
}

/// Reads an unsigned number: an optional plus sign and digits of base `radix`.
pub fn parse_unsigned(s: &[char], radix: u64, max: u64) -> (r: Option<u64>)
    requires
        2 <= radix <= 10,
    ensures
        match r {
            Some(v) => unsigned_value(s@, radix as int, max as int) == Some(v as int) && v <= max,
            None => unsigned_value(s@, radix as int, max as int).is_none(),
        },
{
    if s.len() > 0 && s[0] == '+' {
        let digits = vstd::slice::slice_subrange(s, 1, s.len());
        assert(digits@ =~= s@.drop_first());
        parse_digits(digits, radix, max)
    } else {
        parse_digits(s, radix, max)
    }
}

/// Reads a signed decimal number that fits in an `i64`.
pub fn parse_signed(s: &[char]) -> (r: Option<i64>)
    ensures
        match r {
            Some(v) => signed_value(s@, i64::MAX as int) == Some(v as int),
            None => signed_value(s@, i64::MAX as int).is_none(),
        },
{
    if s.len() > 0 && s[0] == '-' {
        let digits = vstd::slice::slice_subrange(s, 1, s.len());
        assert(digits@ =~= s@.drop_first());
        match parse_digits(digits, 10, 9223372036854775808) {
            Some(v) => if v == 9223372036854775808 {
                Some(i64::MIN)
            } else {
                Some(-(v as i64))
            },
            None => None,
        }
    } else {
        match parse_unsigned(s, 10, i64::MAX as u64) {
            Some(v) => Some(v as i64),
            None => None,
        }
    }
}

/// The character that writes the digit `n`.
pub open spec fn digit_char(n: int) -> char {
    (n + '0' as int) as char
}

/// `n` in decimal notation.
pub open spec fn decimal(n: int) -> Seq<char>
    decreases n,
{
    if n < 10 {
        seq![digit_char(n)]
    } else {
        decimal(n / 10).push(digit_char(n % 10))
    }
}

/// Appends `n` in decimal notation.
pub fn push_decimal(out: &mut String, n: u64)
    ensures
        final(out)@ == old(out)@ + decimal(n as int),
    decreases n,
{
    let ghost before = out@;
    if n >= 10 {
        push_decimal(out, n / 10);
    }
    let digit: u8 = (n % 10) as u8;
    out.push((digit + 48u8) as char);
    assert(out@ =~= before + decimal(n as int));
}

/// A number read back from its decimal notation is the same number.
pub proof fn decimal_reads_back(n: int, max: int)
    requires
        0 <= n <= max,
    ensures
        unsigned_value(decimal(n), 10, max) == Some(n),
{
    lemma_decimal_digits(n);
    assert(is_digit(decimal(n)[0], 10));
}

proof fn lemma_decimal_digits(n: int)
    requires
        0 <= n,
    ensures
        is_number(decimal(n), 10),
        digits_value(decimal(n), 10) == n,
    decreases n,
{
    if n >= 10 {
        lemma_decimal_digits(n / 10);
        let d = decimal(n / 10);
        assert(decimal(n).drop_last() =~= d);
        assert(is_digit(digit_char(n % 10), 10));
        assert forall|i: int| 0 <= i < decimal(n).len() implies is_digit(
            #[trigger] decimal(n)[i],
            10,
        ) by {
            if i < d.len() {
                assert(decimal(n)[i] == d[i]);
            }
        }
    } else {
        let s = decimal(n);
        assert(s.len() == 1 && s[0] == digit_char(n));
        assert(s.drop_last() =~= Seq::empty());
        assert(digits_value(s.drop_last(), 10) == 0);
    }
}

/// What [`cut`] finds is shorter than the text.
pub proof fn lemma_cut(s: Seq<char>, c: char)
    ensures
        cut(s, c) matches Some(p) ==> p.0 + seq![c] + p.1 == s && !p.0.contains(c),
        cut(s, c).is_some() == s.contains(c),
{
    s.index_of_first_ensures(c);
    match s.index_of_first(c) {
        Some(i) => {
            assert(s.take(i) + seq![c] + s.skip(i + 1) =~= s);
        },
        None => {},
    }
}

/// Two texts that were joined by a character that the first does not hold are found again.
pub proof fn cut_undoes_join(a: Seq<char>, c: char, b: Seq<char>)
    requires
        !a.contains(c),
    ensures
        cut(a + seq![c] + b, c) == Some((a, b)),
{
    let s = a + seq![c] + b;
    s.index_of_first_ensures(c);
    assert(s[a.len() as int] == c);
    assert(s.contains(c));
    let i = s.index_of_first(c)->0;
    if i < a.len() {
        assert(s[i] == a[i]);
        assert(a.contains(c));
    }
    assert(s.take(i) =~= a);
    assert(s.skip(i + 1) =~= b);
}

/// The decimal notation of a number is made of digits.
pub proof fn decimal_is_made_of_digits(n: int, c: char)
    requires
        0 <= n,
    ensures
        is_word(decimal(n)),
        decimal(n).contains(c) ==> '0' <= c <= '9',
{
    lemma_decimal_digits(n);
    assert forall|i: int| 0 <= i < decimal(n).len() implies !is_white(#[trigger] decimal(n)[i]) by {
        assert(is_digit(decimal(n)[i], 10));
    }
    if decimal(n).contains(c) {
        let i = choose|i: int| 0 <= i < decimal(n).len() && decimal(n)[i] == c;
        assert(is_digit(decimal(n)[i], 10));
    }
}

/// The part of `s` before the first place where `p` stands in it; all of `s` where it does not.
pub open spec fn before(s: Seq<char>, p: Seq<char>) -> Seq<char>
    decreases s.len(),
{
    if s.len() == 0 || begins_with(s, p) {
        Seq::empty()
    } else {
        seq![s[0]] + before(s.drop_first(), p)
    }
}

/// The part of `s` before the first place where `p` stands in it.
pub fn split_before<'a>(s: &'a [char], p: &str) -> (r: &'a [char])
    ensures
        r@ == before(s@, p@),
{
    let mut i: usize = 0;
    let n: usize = s.len();
    assert(s@.skip(0) =~= s@);
    assert(s@.take(0) + before(s@, p@) =~= before(s@, p@));
    while i < n
        invariant
            i <= n == s@.len(),
            before(s@, p@) == s@.take(i as int) + before(s@.skip(i as int), p@),
        ensures
            i <= n,
            before(s@.skip(i as int), p@).len() == 0,
            before(s@, p@) == s@.take(i as int) + before(s@.skip(i as int), p@),
        decreases n - i,
    {
        let rest = vstd::slice::slice_subrange(s, i, n);
        assert(rest@ =~= s@.skip(i as int));
        if starts_with(rest, p) {
            break;
        }
        assert(s@.skip(i as int).drop_first() =~= s@.skip(i + 1));
        assert(s@.take(i as int) + (seq![s@[i as int]] + before(s@.skip(i + 1), p@)) =~= s@.take(
            i + 1,
        ) + before(s@.skip(i + 1), p@));
        i += 1;
    }
    assert(before(s@, p@) =~= s@.take(i as int));
    assert(s@.subrange(0, i as int) =~= s@.take(i as int));
    vstd::slice::slice_subrange(s, 0, i)
}

/// What [`before`] gives is a head of the text: the text that is sought stands right behind it and
/// nowhere earlier, or nowhere at all where the head is the whole text.
pub proof fn before_ends_at_the_first_place(s: Seq<char>, p: Seq<char>)
    requires
        p.len() > 0,
    ensures
        ({
            let n = before(s, p).len() as int;
            &&& n <= s.len()
            &&& before(s, p) == s.take(n)
            &&& n < s.len() ==> begins_with(s.skip(n), p)
            &&& forall|i: int| 0 <= i < n ==> !begins_with(#[trigger] s.skip(i), p)
        }),
    decreases s.len(),
{
    let n = before(s, p).len() as int;
    if s.len() == 0 || begins_with(s, p) {
        assert(s.skip(0) =~= s);
        assert(before(s, p) =~= s.take(n));
    } else {
        let rest = s.drop_first();
        before_ends_at_the_first_place(rest, p);
        assert(n == before(rest, p).len() + 1);
        assert(before(s, p) =~= s.take(n));
        assert(rest.skip(n - 1) =~= s.skip(n));
        assert forall|i: int| 0 <= i < n implies !begins_with(#[trigger] s.skip(i), p) by {
            if i == 0 {
                assert(s.skip(0) =~= s);
            } else {
                assert(rest.skip(i - 1) =~= s.skip(i));
            }
        }
    }
}

/// A text without white space at its ends is trimmed already.
pub proof fn trimmed_keeps_the_rest(s: Seq<char>)
    requires
        s.len() > 0 ==> !is_white(s[0]) && !is_white(s.last()),
    ensures
        trimmed(s) == s,
{
}

/// The letters of the alphabet have lower-case forms in the same order; every other character
/// stays as it is.
pub proof fn letters_are_lowered_in_order(k: int, c: char)
    requires
        0 <= k < 26,
    ensures
        lower(('A' as int + k) as char) == ('a' as int + k) as char,
        !('A' <= c <= 'Z') ==> lower(c) == c,
        lower(lower(c)) == lower(c),
{
}

/// A number may have a plus sign, and only one that may be negative a minus sign, which makes it
/// so; a sign alone, and nothing at all, are no numbers.
pub proof fn signs_are_read(n: int, max: int)
    requires
        0 <= n <= max,
    ensures
        unsigned_value(seq!['+'] + decimal(n), 10, max) == Some(n),
        unsigned_value(seq!['-'] + decimal(n), 10, max).is_none(),
        signed_value(decimal(n), max) == Some(n),
        signed_value(seq!['+'] + decimal(n), max) == Some(n),
        signed_value(seq!['-'] + decimal(n), max) == Some(-n),
        signed_value(seq!['-'], max).is_none() && signed_value(seq!['+'], max).is_none(),
        unsigned_value(Seq::empty(), 10, max).is_none() && signed_value(Seq::empty(), max).is_none(),
{
    let d = decimal(n);
    lemma_decimal_digits(n);
    assert(is_digit(d[0], 10));
    assert((seq!['+'] + d).drop_first() =~= d);
    assert((seq!['-'] + d).drop_first() =~= d);
    assert(!is_digit((seq!['-'] + d)[0], 10));
    assert(seq!['-'].drop_first() =~= Seq::<char>::empty());
    assert(seq!['+'].drop_first() =~= Seq::<char>::empty());
}

/// Blanks, tabs and the ends of lines are white space; what can be seen of ASCII is not.
pub proof fn blanks_are_white(c: char)
    ensures
        c == ' ' || c == '\t' || c == '\n' || c == '\r' ==> is_white(c),
        '!' <= c <= '~' ==> !is_white(c),
{
}

} // verus!

//! Text as a sequence of characters: searching, splitting, trimming and slicing.

use vstd::prelude::*;
use vstd::string::{StrSliceExecFns, StringExecFns};

verus! {

/// The index of the first `c` in `s`, or the length of `s` if there is none.
pub open spec fn find(s: Seq<char>, c: char) -> nat
    decreases s.len(),
{
    if s.len() == 0 || s[0] == c {
        0
    } else {
        1 + find(s.drop_first(), c)
    }
}

/// The index of the last `c` in `s`, if there is one.
pub open spec fn find_last(s: Seq<char>, c: char) -> Option<nat>
    decreases s.len(),
{
    if s.len() == 0 {
        None
    } else if s.last() == c {
        Some((s.len() - 1) as nat)
    } else {
        find_last(s.drop_last(), c)
    }
}

/// The pieces of `s` between the separators `sep`: one more than there are separators.
pub open spec fn split(s: Seq<char>, sep: char) -> Seq<Seq<char>>
    decreases s.len(),
{
    let i = find(s, sep);
    if i < s.len() {
        seq![s.take(i as int)] + split(s.skip(i as int + 1), sep)
    } else {
        seq![s]
    }
}

/// Whether the Unicode property White_Space holds of `c`.
pub open spec fn white_space(c: char) -> bool {
    ||| '\t' <= c <= '\r'
    ||| c == ' ' || c == '\u{85}' || c == '\u{a0}' || c == '\u{1680}'
    ||| '\u{2000}' <= c <= '\u{200a}'
    ||| c == '\u{2028}' || c == '\u{2029}' || c == '\u{202f}' || c == '\u{205f}'
    ||| c == '\u{3000}'
}

/// `s` without the white space that it starts with.
pub open spec fn trim_start(s: Seq<char>) -> Seq<char>
    decreases s.len(),
{
    if s.len() > 0 && white_space(s[0]) {
        trim_start(s.drop_first())
    } else {
        s
    }
}

/// `s` without the white space that it ends with.
pub open spec fn trim_end(s: Seq<char>) -> Seq<char>
    decreases s.len(),
{
    if s.len() > 0 && white_space(s.last()) {
        trim_end(s.drop_last())
    } else {
        s
    }
}

/// `s` without white space at either end.
pub open spec fn trim(s: Seq<char>) -> Seq<char> {
    trim_end(trim_start(s))
}

/// Whether `s` starts with `prefix`.
pub open spec fn starts_with(s: Seq<char>, prefix: Seq<char>) -> bool {
    prefix.len() <= s.len() && s.take(prefix.len() as int) == prefix
}

/// Space, tab, line feed, form feed and carriage return.
pub open spec fn ascii_white_space(c: char) -> bool {
    c == ' ' || c == '\t' || c == '\n' || c == '\u{c}' || c == '\r'
}

/// The number of characters before the first ASCII white space.
pub open spec fn word_len(s: Seq<char>) -> nat
    decreases s.len(),
{
    if s.len() == 0 || ascii_white_space(s[0]) {
        0
    } else {
        1 + word_len(s.drop_first())
    }
}

/// The non-empty pieces of `s` between runs of ASCII white space.
pub open spec fn words(s: Seq<char>) -> Seq<Seq<char>>
    decreases s.len(),
{
    if s.len() == 0 {
        Seq::empty()
    } else if ascii_white_space(s[0]) {
        words(s.drop_first())
    } else {
        proof {
            lemma_word_len(s);
        }
        seq![s.take(word_len(s) as int)] + words(s.skip(word_len(s) as int))
    }
}

/// The text that an optional string holds.
pub open spec fn text_of(s: Option<String>) -> Option<Seq<char>> {
    match s {
        Some(t) => Some(t@),
        None => None,
    }
}

/// What the vectors of characters in `v` hold.
pub open spec fn views(v: Seq<Vec<char>>) -> Seq<Seq<char>> {
    v.map_values(|w: Vec<char>| w@)
}

/// `char::is_whitespace` tells whether the Unicode property White_Space holds of the
/// character.
pub assume_specification[ char::is_whitespace ](c: char) -> (r: bool)
    ensures
        r == white_space(c),
;

/// `String::push` appends the character.
pub assume_specification[ String::push ](s: &mut String, c: char)
    ensures
        final(s)@ == old(s)@.push(c),
;

/// `find` is a bound that no `c` stands before, and `c` stands at it unless it is the end.
pub proof fn lemma_find(s: Seq<char>, c: char)
    ensures
        find(s, c) <= s.len(),
        forall|j: int| 0 <= j < find(s, c) ==> s[j] != c,
        find(s, c) < s.len() ==> s[find(s, c) as int] == c,
    decreases s.len(),
{
    if s.len() > 0 && s[0] != c {
        let rest = s.drop_first();
        lemma_find(rest, c);
        assert forall|j: int| 0 <= j < find(s, c) implies s[j] != c by {
            if j > 0 {
                assert(rest[j - 1] == s[j]);
            }
        }
    }
}

/// Only one index is the first one.
pub proof fn lemma_find_unique(s: Seq<char>, c: char, i: nat)
    requires
        i <= s.len(),
        forall|j: int| 0 <= j < i ==> s[j] != c,
        i < s.len() ==> s[i as int] == c,
    ensures
        find(s, c) == i,
{
    lemma_find(s, c);
    if find(s, c) < i {
        assert(s[find(s, c) as int] != c);
    }
    if i < find(s, c) {
        assert(s[i as int] != c);
    }
}

/// The last index is the last one.
pub proof fn lemma_find_last(s: Seq<char>, c: char)
    ensures
        find_last(s, c) matches Some(i) ==> i < s.len() && s[i as int] == c && forall|j: int|
            i < j < s.len() ==> s[j] != c,
        find_last(s, c) is None ==> !s.contains(c),
    decreases s.len(),
{
    if s.len() > 0 && s.last() != c {
        let init = s.drop_last();
        lemma_find_last(init, c);
        if let Some(i) = find_last(s, c) {
            assert forall|j: int| i < j < s.len() implies s[j] != c by {
                if j < s.len() - 1 {
                    assert(init[j] == s[j]);
                }
            }
        }
        if find_last(s, c) is None {
            assert forall|j: int| 0 <= j < s.len() implies s[j] != c by {
                if j < s.len() - 1 {
                    assert(s.drop_last()[j] == s[j]);
                    assert(s.drop_last().contains(s[j]));
                }
            }
        }
    }
}

/// A text holds a character exactly when the search for it stops before the end.
pub proof fn lemma_contains(s: Seq<char>, c: char)
    ensures
        s.contains(c) <==> find(s, c) < s.len(),
{
    lemma_find(s, c);
    if s.contains(c) {
        let j = choose|j: int| 0 <= j < s.len() && s[j] == c;
        assert(j >= find(s, c));
    }
}

/// `word_len` is a bound that no white space stands before, and white space stands at it unless
/// it is the end.
pub proof fn lemma_word_len(s: Seq<char>)
    ensures
        word_len(s) <= s.len(),
        forall|j: int| 0 <= j < word_len(s) ==> !ascii_white_space(s[j]),
        word_len(s) < s.len() ==> ascii_white_space(s[word_len(s) as int]),
    decreases s.len(),
{
    if s.len() > 0 && !ascii_white_space(s[0]) {
        let rest = s.drop_first();
        lemma_word_len(rest);
        assert forall|j: int| 0 <= j < word_len(s) implies !ascii_white_space(s[j]) by {
            if j > 0 {
                assert(rest[j - 1] == s[j]);
            }
        }
    }
}

/// The characters of `s`.
pub fn to_chars(s: &str) -> (r: Vec<char>)
    ensures
        r@ == s@,
{
    let mut r: Vec<char> = Vec::new();
    for c in it: s.chars()
        invariant
            it.seq() == s@,
            r@ == s@.take(it.index() as int),
    {
        r.push(c);
    }
    assert(s@.take(s@.len() as int) == s@);
    r
}

/// The text of the characters from `from` up to `to`.
pub fn to_text(chars: &Vec<char>, from: usize, to: usize) -> (r: String)
    requires
        from <= to <= chars@.len(),
    ensures
        r@ == chars@.subrange(from as int, to as int),
{
    let mut r = String::new();
    let mut i: usize = from;
    while i < to
        invariant
            from <= i <= to <= chars@.len(),
            r@ == chars@.subrange(from as int, i as int),
        decreases to - i,
    {
        r.push(chars[i]);
        i += 1;
    }
    r
}

/// The first index from `from` on at which `c` stands, or the length.
pub fn find_char(chars: &Vec<char>, from: usize, c: char) -> (r: usize)
    requires
        from <= chars@.len(),
    ensures
        from <= r <= chars@.len(),
        r == from + find(chars@.skip(from as int), c),
{
    let mut i: usize = from;
    while i < chars.len() && chars[i] != c
        invariant
            from <= i <= chars@.len(),
            forall|j: int| from <= j < i ==> chars@[j] != c,
        decreases chars@.len() - i,
    {
        i += 1;
    }
    proof {
        lemma_find_unique(chars@.skip(from as int), c, (i - from) as nat);
    }
    i
}

/// The last index at which `c` stands.
pub fn find_last_char(chars: &Vec<char>, c: char) -> (r: Option<usize>)
    ensures
        r is Some <==> find_last(chars@, c) is Some,
        r matches Some(i) ==> find_last(chars@, c) == Some(i as nat) && i < chars@.len(),
{
    let mut n: usize = chars.len();
    assert(chars@.take(n as int) == chars@);
    while n > 0
        invariant
            n <= chars@.len(),
            find_last(chars@, c) == find_last(chars@.take(n as int), c),
        decreases n,
    {
        assert(chars@.take(n as int).last() == chars@[n - 1]);
        if chars[n - 1] == c {
            return Some(n - 1);
        }
        assert(chars@.take(n as int).drop_last() == chars@.take(n - 1));
        n -= 1;
    }
    None
}

/// The pieces of `chars` between the separators.
pub fn split_chars(chars: &Vec<char>, sep: char) -> (r: Vec<Vec<char>>)
    ensures
        views(r@) == split(chars@, sep),
{
    let mut r: Vec<Vec<char>> = Vec::new();
    let mut from: usize = 0;
    assert(chars@.skip(0) == chars@);
    assert(views(r@) == Seq::<Seq<char>>::empty());
    loop
        invariant
            from <= chars@.len(),
            views(r@) + split(chars@.skip(from as int), sep) == split(chars@, sep),
        decreases chars@.len() - from,
    {
        let ghost rest = chars@.skip(from as int);
        let ghost before = views(r@);
        let to = find_char(chars, from, sep);
        let mut piece: Vec<char> = Vec::new();
        let mut i: usize = from;
        while i < to
            invariant
                from <= i <= to <= chars@.len(),
                piece@ == chars@.subrange(from as int, i as int),
            decreases to - i,
        {
            piece.push(chars[i]);
            i += 1;
        }
        assert(piece@ == rest.take(to - from));
        r.push(piece);
        assert(views(r@) == before.push(piece@));
        if to == chars.len() {
            assert(rest.take(to - from) == rest);
            assert(split(rest, sep) == seq![rest]);
            assert(before + seq![rest] == before.push(rest));
            return r;
        }
        assert(rest.skip(to - from + 1) == chars@.skip(to + 1));
        assert(before + (seq![piece@] + split(chars@.skip(to + 1), sep)) == before.push(piece@)
            + split(chars@.skip(to + 1), sep));
        from = to + 1;
    }
}

/// The non-empty pieces of `chars` between runs of ASCII white space.
pub fn split_words(chars: &Vec<char>) -> (r: Vec<Vec<char>>)
    ensures
        views(r@) == words(chars@),
{
    let mut r: Vec<Vec<char>> = Vec::new();
    let mut from: usize = 0;
    assert(chars@.skip(0) == chars@);
    assert(views(r@) == Seq::<Seq<char>>::empty());
    while from < chars.len()
        invariant
            from <= chars@.len(),
            views(r@) + words(chars@.skip(from as int)) == words(chars@),
        decreases chars@.len() - from,
    {
        let ghost rest = chars@.skip(from as int);
        let ghost before = views(r@);
        if is_ascii_white_space(chars[from]) {
            assert(rest.drop_first() == chars@.skip(from + 1));
            from += 1;
        } else {
            let mut piece: Vec<char> = Vec::new();
            let mut i: usize = from;
            while i < chars.len() && !is_ascii_white_space(chars[i])
                invariant
                    from <= i <= chars@.len(),
                    piece@ == chars@.subrange(from as int, i as int),
                    forall|j: int| from <= j < i ==> !ascii_white_space(chars@[j]),
                decreases chars@.len() - i,
            {
                piece.push(chars[i]);
                i += 1;
            }
            proof {
                lemma_word_len(rest);
                let n = word_len(rest);
                if n < i - from {
                    assert(!ascii_white_space(chars@[from + n]));
                }
                if i - from < n {
                    assert(!ascii_white_space(rest[i - from]));
                }
            }
            assert(piece@ == rest.take(i - from));
            r.push(piece);
            assert(views(r@) == before.push(piece@));
            assert(rest.skip(i - from) == chars@.skip(i as int));
            assert(before + (seq![piece@] + words(chars@.skip(i as int))) == before.push(piece@)
                + words(chars@.skip(i as int)));
            from = i;
        }
    }
    assert(chars@.skip(from as int) == Seq::<char>::empty());
    assert(views(r@) + Seq::<Seq<char>>::empty() == views(r@));
    r
}

/// Whether `c` is a space, tab, line feed, form feed or carriage return.
pub fn is_ascii_white_space(c: char) -> (r: bool)
    ensures
        r == ascii_white_space(c),
{
    c == ' ' || c == '\t' || c == '\n' || c == '\u{c}' || c == '\r'
}

/// The bounds between which `chars` stands without the white space at its ends.
pub fn trim_bounds(chars: &Vec<char>) -> (r: (usize, usize))
    ensures
        r.0 <= r.1 <= chars@.len(),
        chars@.subrange(r.0 as int, r.1 as int) == trim(chars@),
{
    let mut from: usize = 0;
    assert(chars@.skip(0) == chars@);
    while from < chars.len() && chars[from].is_whitespace()
        invariant
            from <= chars@.len(),
            trim_start(chars@.skip(from as int)) == trim_start(chars@),
        decreases chars@.len() - from,
    {
        assert(chars@.skip(from as int)[0] == chars@[from as int]);
        assert(chars@.skip(from as int).drop_first() == chars@.skip(from + 1));
        from += 1;
    }
    let ghost rest = chars@.skip(from as int);
    let mut to: usize = chars.len();
    assert(rest == chars@.subrange(from as int, to as int));
    assert(from < chars@.len() ==> rest[0] == chars@[from as int]);
    assert(trim_start(rest) == rest);
    while to > from && chars[to - 1].is_whitespace()
        invariant
            from <= to <= chars@.len(),
            trim_end(chars@.subrange(from as int, to as int)) == trim_end(rest),
        decreases to,
    {
        let ghost part = chars@.subrange(from as int, to as int);
        assert(part.last() == chars@[to - 1]);
        assert(part.drop_last() == chars@.subrange(from as int, to - 1));
        to -= 1;
    }
    let ghost part = chars@.subrange(from as int, to as int);
    assert(to > from ==> part.last() == chars@[to - 1]);
    (from, to)
}

/// Whether `chars` starts with `prefix`.
pub fn chars_start_with(chars: &Vec<char>, prefix: &Vec<char>) -> (r: bool)
    ensures
        r == starts_with(chars@, prefix@),
{
    if prefix.len() > chars.len() {
        return false;
    }
    let mut i: usize = 0;
    while i < prefix.len()
        invariant
            i <= prefix@.len() <= chars@.len(),
            forall|j: int| 0 <= j < i ==> chars@[j] == prefix@[j],
        decreases prefix@.len() - i,
    {
        if chars[i] != prefix[i] {
            assert(chars@.take(prefix@.len() as int)[i as int] != prefix@[i as int]);
            return false;
        }
        i += 1;
    }
    assert(chars@.take(prefix@.len() as int) == prefix@);
    true
}

/// Whether the two texts are the same.
pub fn same_text(a: &str, b: &str) -> (r: bool)
    ensures
        r == (a@ == b@),
{
    a.to_owned() == b.to_owned()
}

/// `s` without `prefix` at its start, if it starts with it.
pub fn without_prefix<'a>(s: &'a str, prefix: &str) -> (r: Option<&'a str>)
    ensures
        r is Some <==> starts_with(s@, prefix@),
        r matches Some(rest) ==> rest@ == s@.skip(prefix@.len() as int),
{
    let chars = to_chars(s);
    let head = to_chars(prefix);
    if chars_start_with(&chars, &head) {
        Some(s.substring_char(head.len(), chars.len()))
    } else {
        None
    }
}

/// The two texts one after the other.
pub fn joined(a: &str, b: &str) -> (r: String)
    ensures
        r@ == a@ + b@,
{
    let mut r = a.to_owned();
    r.append(b);
    r
}

/// What starts with a prefix is the prefix and a rest.
pub proof fn law_starts_with(s: Seq<char>, prefix: Seq<char>)
    ensures
        starts_with(s, prefix) <==> exists|rest: Seq<char>| s == #[trigger] (prefix + rest),
{
    if starts_with(s, prefix) {
        assert(s == prefix + s.skip(prefix.len() as int));
    }
    if exists|rest: Seq<char>| s == #[trigger] (prefix + rest) {
        let rest = choose|rest: Seq<char>| s == #[trigger] (prefix + rest);
        assert(s.take(prefix.len() as int) == prefix);
    }
}

proof fn lemma_trim_start(s: Seq<char>) -> (i: int)
    ensures
        0 <= i <= s.len(),
        trim_start(s) == s.skip(i),
        forall|k: int| 0 <= k < i ==> white_space(#[trigger] s[k]),
        i < s.len() ==> !white_space(s[i]),
    decreases s.len(),
{
    if s.len() > 0 && white_space(s[0]) {
        let rest = s.drop_first();
        let i = lemma_trim_start(rest);
        assert(rest.skip(i) == s.skip(i + 1));
        assert forall|k: int| 0 <= k < i + 1 implies white_space(#[trigger] s[k]) by {
            if k > 0 {
                assert(rest[k - 1] == s[k]);
            }
        }
        if i < rest.len() {
            assert(rest[i] == s[i + 1]);
        }
        i + 1
    } else {
        assert(s.skip(0) == s);
        0
    }
}

proof fn lemma_trim_end(s: Seq<char>) -> (j: int)
    ensures
        0 <= j <= s.len(),
        trim_end(s) == s.take(j),
        forall|k: int| j <= k < s.len() ==> white_space(#[trigger] s[k]),
        j > 0 ==> !white_space(s[j - 1]),
    decreases s.len(),
{
    if s.len() > 0 && white_space(s.last()) {
        let init = s.drop_last();
        let j = lemma_trim_end(init);
        assert(init.take(j) == s.take(j));
        assert forall|k: int| j <= k < s.len() implies white_space(#[trigger] s[k]) by {
            if k < s.len() - 1 {
                assert(init[k] == s[k]);
            }
        }
        j
    } else {
        assert(s.take(s.len() as int) == s);
        s.len() as int
    }
}

/// Trimming a text takes the white space off both ends and leaves what is between them.
pub proof fn law_trim(before: Seq<char>, s: Seq<char>, behind: Seq<char>)
    requires
        forall|k: int| 0 <= k < before.len() ==> white_space(#[trigger] before[k]),
        forall|k: int| 0 <= k < behind.len() ==> white_space(#[trigger] behind[k]),
        s.len() > 0 ==> !white_space(s[0]) && !white_space(s.last()),
    ensures
        trim(before + s + behind) == s,
{
    let t = before + s + behind;
    let i = lemma_trim_start(t);
    let u = t.skip(i);
    let j = lemma_trim_end(u);
    if s.len() > 0 {
        let n = before.len() as int;
        assert(t[n] == s[0]);
        if i < n {
            assert(t[i] == before[i]);
        }
        assert(i == n);
        assert(u == s + behind);
        assert(u[s.len() - 1] == s.last());
        if j > s.len() {
            assert(u[j - 1] == behind[j - 1 - s.len()]);
        }
        assert(j == s.len());
        assert(u.take(j) == s);
    } else {
        if i < t.len() {
            if i < before.len() {
                assert(t[i] == before[i]);
            } else {
                assert(t[i] == behind[i - before.len()]);
            }
        }
        assert(u == s);
        assert(u.take(j) == s);
    }
}

proof fn lemma_word_len_unique(s: Seq<char>, n: nat)
    requires
        n <= s.len(),
        forall|j: int| 0 <= j < n ==> !ascii_white_space(#[trigger] s[j]),
        n < s.len() ==> ascii_white_space(s[n as int]),
    ensures
        word_len(s) == n,
{
    lemma_word_len(s);
    if word_len(s) < n {
        assert(!ascii_white_space(s[word_len(s) as int]));
    }
    if n < word_len(s) {
        assert(!ascii_white_space(s[n as int]));
    }
}

proof fn lemma_words_of_two(a: Seq<char>, c: char, b: Seq<char>)
    requires
        ascii_white_space(c),
    ensures
        words(a.push(c) + b) == words(a) + words(b),
    decreases a.len(),
{
    let s = a.push(c) + b;
    if a.len() == 0 {
        assert(s.drop_first() == b);
        assert(Seq::<Seq<char>>::empty() + words(b) == words(b));
    } else if ascii_white_space(a[0]) {
        lemma_words_of_two(a.drop_first(), c, b);
        assert(s.drop_first() == a.drop_first().push(c) + b);
    } else {
        lemma_word_len(a);
        let n = word_len(a);
        assert forall|j: int| 0 <= j < n implies !ascii_white_space(#[trigger] s[j]) by {
            assert(s[j] == a[j]);
        }
        lemma_word_len_unique(s, n);
        let rest = a.skip(n as int);
        lemma_words_of_two(rest, c, b);
        assert(s.skip(n as int) == rest.push(c) + b);
        assert(s.take(n as int) == a.take(n as int));
        assert(seq![a.take(n as int)] + (words(rest) + words(b)) == (seq![a.take(n as int)]
            + words(rest)) + words(b));
    }
}

/// Space, tab, line feed, form feed and carriage return stand between words, and nothing else
/// does: the words of two texts with one of these between them are those of the one and then those
/// of the other, and what holds none of these is one word, unless it is empty.
pub proof fn law_words(a: Seq<char>, c: char, b: Seq<char>)
    requires
        c == ' ' || c == '\t' || c == '\n' || c == '\u{c}' || c == '\r',
    ensures
        words(a.push(c) + b) == words(a) + words(b),
        (forall|i: int|
            0 <= i < a.len() ==> #[trigger] a[i] != ' ' && a[i] != '\t' && a[i] != '\n' && a[i]
                != '\u{c}' && a[i] != '\r') ==> words(a) == (if a.len() == 0 {
            Seq::empty()
        } else {
            seq![a]
        }),
{
    lemma_words_of_two(a, c, b);
    if a.len() > 0 && forall|i: int|
        0 <= i < a.len() ==> #[trigger] a[i] != ' ' && a[i] != '\t' && a[i] != '\n' && a[i]
            != '\u{c}' && a[i] != '\r' {
        assert(!ascii_white_space(a[0]));
        lemma_word_len_unique(a, a.len());
        assert(a.take(a.len() as int) == a);
        assert(a.skip(a.len() as int) == Seq::<char>::empty());
        assert(words(a) == seq![a] + words(Seq::<char>::empty()));
        assert(seq![a] + Seq::<Seq<char>>::empty() == seq![a]);
    }
}

} // verus!

//! The server's configuration: routes, each a matcher for request paths and a list of directives.

use vstd::prelude::*;
use vstd::string::StrSliceExecFns;

use crate::text::{
    chars_start_with, find, find_char, law_starts_with, law_trim, lemma_contains, lemma_find,
    lemma_find_unique, split, split_chars, starts_with, to_chars, trim, trim_bounds, trim_end,
    trim_start, views, white_space,
};

verus! {

/// The configuration of a server.
#[derive(Clone, Debug)]
pub struct Config {
    pub routes: Vec<ConfigRoute>,
    pub log: String,
    pub bind: String,
}

/// The directives for the requests whose path a matcher accepts.
#[derive(Clone, Debug)]
pub struct ConfigRoute {
    pub matcher: String,
    pub directive: Vec<String>,
}

/// What a `ConfigRoute` holds.
pub struct RouteView {
    pub matcher: Seq<char>,
    pub directive: Seq<Seq<char>>,
}

impl View for ConfigRoute {
    type V = RouteView;

    open spec fn view(&self) -> RouteView {
        RouteView {
            matcher: self.matcher@,
            directive: self.directive@.map_values(|d: String| d@),
        }
    }
}

/// The routes of a configuration.
pub open spec fn routes_of(config: Config) -> Seq<RouteView> {
    config.routes@.map_values(|r: ConfigRoute| r@)
}

/// Whether one item of a matcher accepts the path `s`: an item that ends in `*` accepts what
/// starts with the rest of it, and another item itself. An item with a `*` anywhere but at its
/// end accepts nothing, nor does an empty one.
pub open spec fn item_matches(item: Seq<char>, s: Seq<char>) -> bool {
    if item.len() > 0 && item.last() == '*' {
        !item.drop_last().contains('*') && starts_with(s, item.drop_last())
    } else {
        item.len() > 0 && !item.contains('*') && item == s
    }
}

/// The items of a matcher, which spaces separate.
pub open spec fn matcher_items(matcher: Seq<char>) -> Seq<Seq<char>> {
    split(trim(matcher), ' ')
}

/// Whether one of the items accepts `s`.
pub open spec fn any_item_matches(items: Seq<Seq<char>>, s: Seq<char>) -> bool {
    exists|k: int| 0 <= k < items.len() && #[trigger] item_matches(items[k], s)
}

/// Whether a matcher accepts the path `s`.
pub open spec fn route_matches(matcher: Seq<char>, s: Seq<char>) -> bool {
    any_item_matches(matcher_items(matcher), s)
}

/// The name and the parameter of a directive: what stands before and behind its first space.
pub open spec fn directive_parts(directive: Seq<char>) -> (Seq<char>, Seq<char>) {
    let t = trim(directive);
    let i = find(t, ' ') as int;
    if i < t.len() {
        (t.take(i), t.skip(i + 1))
    } else {
        (t, Seq::empty())
    }
}

/// Whether `item` accepts the path `s`.
fn item_accepts(item: &Vec<char>, s: &Vec<char>) -> (r: bool)
    ensures
        r == item_matches(item@, s@),
{
    if item.len() == 0 {
        return false;
    }
    assert(item@.skip(0) == item@);
    let star = find_char(item, 0, '*');
    proof {
        lemma_find(item@, '*');
        lemma_contains(item@, '*');
    }
    if star < item.len() - 1 {
        proof {
            assert(item@.drop_last()[star as int] == '*');
            assert(item@.drop_last().contains('*'));
        }
        return false;
    }
    let mut i: usize = 0;
    if star < item.len() {
        assert(item@.last() == '*');
        assert(!item@.drop_last().contains('*'));
        if star > s.len() {
            return false;
        }
        while i < star
            invariant
                i <= star < item@.len(),
                star <= s@.len(),
                forall|j: int| 0 <= j < i ==> item@[j] == s@[j],
            decreases star - i,
        {
            if item[i] != s[i] {
                assert(s@.take(star as int)[i as int] != item@.drop_last()[i as int]);
                return false;
            }
            i += 1;
        }
        assert(s@.take(star as int) == item@.drop_last());
        true
    } else {
        if item.len() != s.len() {
            return false;
        }
        let r = chars_start_with(s, item);
        assert(s@.take(item@.len() as int) == s@);
        r
    }
}

impl ConfigRoute {
    /// Whether the route is for requests for the path `s`.
    pub fn is_match(&self, s: &str) -> (r: bool)
        ensures
            r == route_matches(self.matcher@, s@),
    {
        let path = to_chars(s);
        let chars = to_chars(self.matcher.as_str());
        let (from, to) = trim_bounds(&chars);
        let mut trimmed: Vec<char> = Vec::new();
        let mut i: usize = from;
        while i < to
            invariant
                from <= i <= to <= chars@.len(),
                trimmed@ == chars@.subrange(from as int, i as int),
            decreases to - i,
        {
            trimmed.push(chars[i]);
            i += 1;
        }
        let items = split_chars(&trimmed, ' ');
        let ghost spec_items = matcher_items(self.matcher@);
        assert(views(items@) == spec_items);
        let mut k: usize = 0;
        while k < items.len()
            invariant
                k <= items@.len(),
                views(items@) == spec_items,
                spec_items == matcher_items(self.matcher@),
                path@ == s@,
                forall|j: int| 0 <= j < k ==> !#[trigger] item_matches(spec_items[j], s@),
            decreases items@.len() - k,
        {
            assert(views(items@)[k as int] == items@[k as int]@);
            if item_accepts(&items[k], &path) {
                assert(item_matches(spec_items[k as int], s@));
                return true;
            }
            k += 1;
        }
        false
    }

    /// Splits a directive into its name and its parameter.
    pub fn parse_directive(directive: &str) -> (r: (&str, &str))
        ensures
            (r.0@, r.1@) == directive_parts(directive@),
    {
        let chars = to_chars(directive);
        let (from, to) = trim_bounds(&chars);
        let ghost t = trim(directive@);
        let mut i: usize = from;
        while i < to && chars[i] != ' '
            invariant
                from <= i <= to <= chars@.len(),
                chars@.subrange(from as int, to as int) == t,
                forall|j: int| 0 <= j < i - from ==> t[j] != ' ',
            decreases to - i,
        {
            assert(t[i - from] == chars@[i as int]);
            i += 1;
        }
        assert(i < to ==> t[i - from] == chars@[i as int]);
        proof {
            lemma_find_unique(t, ' ', (i - from) as nat);
        }
        let name = directive.substring_char(from, i);
        assert(name@ == t.take(i - from));
        if i < to {
            let param = directive.substring_char(i + 1, to);
            assert(param@ == t.skip(i - from + 1));
            (name, param)
        } else {
            proof {
                reveal_strlit("");
            }
            assert(t.take(i - from) == t);
            assert(""@ == Seq::<char>::empty());
            (name, "")
        }
    }
}

proof fn lemma_trim_len(s: Seq<char>)
    ensures
        trim_start(s).len() <= s.len(),
        trim_end(s).len() <= s.len(),
    decreases s.len(),
{
    if s.len() > 0 {
        lemma_trim_len(s.drop_first());
        lemma_trim_len(s.drop_last());
    }
}

/// Trimming leaves alone exactly what has no white space at its ends.
proof fn lemma_trimmed(s: Seq<char>)
    requires
        s.len() > 0,
    ensures
        trim(s) == s <==> !white_space(s[0]) && !white_space(s.last()),
{
    lemma_trim_len(s);
    lemma_trim_len(trim_start(s));
    if white_space(s[0]) {
        lemma_trim_len(s.drop_first());
    } else if white_space(s.last()) {
        lemma_trim_len(s.drop_last());
    }
}

/// Splitting two texts with a separator between them splits the one and then the other.
proof fn lemma_split_joined(a: Seq<char>, sep: char, b: Seq<char>)
    ensures
        split(a.push(sep) + b, sep) == split(a, sep) + split(b, sep),
    decreases a.len(),
{
    let s = a.push(sep) + b;
    lemma_find(a, sep);
    let i = find(a, sep);
    lemma_find_unique(s, sep, i);
    if i < a.len() {
        let rest = a.skip(i as int + 1);
        lemma_split_joined(rest, sep, b);
        assert(s.skip(i as int + 1) == rest.push(sep) + b);
        assert(s.take(i as int) == a.take(i as int));
        assert(seq![a.take(i as int)] + (split(rest, sep) + split(b, sep)) == (seq![
            a.take(i as int),
        ] + split(rest, sep)) + split(b, sep));
    } else {
        assert(s.take(i as int) == a);
        assert(s.skip(i as int + 1) == b);
    }
}

/// A space before a trimmed text is trimmed.
proof fn lemma_trim_before(s: Seq<char>)
    requires
        trim(s) == s,
    ensures
        trim(seq![' '] + s) == s,
{
    let t = seq![' '] + s;
    assert(t.drop_first() == s);
    assert(trim_start(t) == trim_start(s));
}

/// A space behind a trimmed text that is not empty is trimmed.
proof fn lemma_trim_behind(s: Seq<char>)
    requires
        trim(s) == s,
        s.len() > 0,
    ensures
        trim(s.push(' ')) == s,
{
    let t = s.push(' ');
    lemma_trimmed(s);
    assert(t[0] == s[0]);
    assert(trim_start(t) == t);
    assert(t.drop_last() == s);
    assert(trim_start(s) == s);
    assert(trim_end(t) == trim_end(s));
}

/// An empty matcher accepts nothing.
proof fn lemma_nothing_matches_nothing(matcher: Seq<char>, s: Seq<char>)
    requires
        matcher.len() == 0,
    ensures
        !route_matches(matcher, s),
{
    let items = matcher_items(matcher);
    assert(items == seq![matcher]);
    assert forall|k: int| 0 <= k < items.len() implies !#[trigger] item_matches(items[k], s) by {
        assert(items[k] == matcher);
    }
}

/// Two trimmed matchers with a space between them that stay so as a whole accept what either of
/// them accepts.
proof fn lemma_alternatives(a: Seq<char>, b: Seq<char>, s: Seq<char>)
    requires
        trim(a) == a,
        trim(b) == b,
        trim(a.push(' ') + b) == a.push(' ') + b,
    ensures
        route_matches(a.push(' ') + b, s) == (route_matches(a, s) || route_matches(b, s)),
{
    let m = a.push(' ') + b;
    lemma_split_joined(a, ' ', b);
    let (ia, ib, im) = (matcher_items(a), matcher_items(b), matcher_items(m));
    assert(im == ia + ib);
    if any_item_matches(ia, s) {
        let k = choose|k: int| 0 <= k < ia.len() && #[trigger] item_matches(ia[k], s);
        assert(im[k] == ia[k]);
        assert(item_matches(im[k], s));
    }
    if any_item_matches(ib, s) {
        let k = choose|k: int| 0 <= k < ib.len() && #[trigger] item_matches(ib[k], s);
        assert(im[ia.len() + k] == ib[k]);
        assert(item_matches(im[ia.len() + k], s));
    }
    if any_item_matches(im, s) {
        let k = choose|k: int| 0 <= k < im.len() && #[trigger] item_matches(im[k], s);
        if k < ia.len() {
            assert(item_matches(ia[k], s));
        } else {
            assert(item_matches(ib[k - ia.len()], s));
        }
    }
}

/// The items of a matcher are alternatives: two matchers with a space between them accept what
/// either of them accepts.
pub proof fn law_matcher_alternatives(a: Seq<char>, b: Seq<char>, s: Seq<char>)
    requires
        trim(a) == a,
        trim(b) == b,
    ensures
        route_matches(a.push(' ') + b, s) == (route_matches(a, s) || route_matches(b, s)),
{
    let m = a.push(' ') + b;
    if a.len() == 0 {
        lemma_nothing_matches_nothing(a, s);
        lemma_trim_before(b);
        assert(m == seq![' '] + b);
    } else if b.len() == 0 {
        lemma_nothing_matches_nothing(b, s);
        lemma_trim_behind(a);
        assert(m == a.push(' '));
    } else {
        lemma_trimmed(a);
        lemma_trimmed(b);
        lemma_trimmed(m);
        assert(m[0] == a[0]);
        assert(m.last() == b.last());
        lemma_alternatives(a, b, s);
    }
}

/// A matcher with the item `*` accepts every path.
pub proof fn law_star_matches_all(matcher: Seq<char>, s: Seq<char>)
    requires
        matcher_items(matcher).contains(seq!['*']),
    ensures
        route_matches(matcher, s),
{
    let items = matcher_items(matcher);
    let k = choose|k: int| 0 <= k < items.len() && items[k] == seq!['*'];
    assert(items[k].drop_last() == Seq::<char>::empty());
    assert(s.take(0) == Seq::<char>::empty());
    assert(item_matches(items[k], s));
}

/// A name without spaces and a parameter, with a space between them, are split again.
pub proof fn law_parse_of_directive(name: Seq<char>, param: Seq<char>)
    requires
        name.len() > 0 && !name.contains(' ') && !white_space(name[0]),
        param.len() > 0 && !white_space(param.last()),
    ensures
        directive_parts(name.push(' ') + param) == (name, param),
{
    let t = name.push(' ') + param;
    lemma_trimmed(t);
    assert(t[0] == name[0]);
    assert(t.last() == param.last());
    assert forall|j: int| 0 <= j < name.len() implies t[j] != ' ' by {
        assert(name.contains(name[j]));
    }
    lemma_find_unique(t, ' ', name.len());
    assert(t.take(name.len() as int) == name);
    assert(t.skip(name.len() as int + 1) == param);
}

/// The pieces of two texts with a separator between them are those of the one and then those of
/// the other, and what holds no separator is one piece.
pub proof fn law_split(a: Seq<char>, sep: char, b: Seq<char>)
    ensures
        split(a.push(sep) + b, sep) == split(a, sep) + split(b, sep),
        !a.contains(sep) ==> split(a, sep) == seq![a],
{
    lemma_split_joined(a, sep, b);
    lemma_contains(a, sep);
}

/// A matcher of one item has that item only.
proof fn lemma_one_item(item: Seq<char>)
    requires
        item.len() > 0 && !item.contains(' '),
        !white_space(item[0]) && !white_space(item.last()),
    ensures
        matcher_items(item) == seq![item],
{
    lemma_trimmed(item);
    lemma_contains(item, ' ');
}

proof fn lemma_one_item_matches(item: Seq<char>, s: Seq<char>)
    requires
        matcher_items(item) == seq![item],
    ensures
        route_matches(item, s) == item_matches(item, s),
{
    let items = matcher_items(item);
    assert(items[0] == item);
    if item_matches(item, s) {
        assert(item_matches(items[0], s));
    }
}

/// A path without `*` is the matcher of that path and no other.
pub proof fn law_path_matches_itself(path: Seq<char>, s: Seq<char>)
    requires
        path.len() > 0 && !path.contains(' ') && !path.contains('*'),
        !white_space(path[0]) && !white_space(path.last()),
    ensures
        route_matches(path, s) <==> s == path,
{
    lemma_one_item(path);
    lemma_one_item_matches(path, s);
    assert(path.contains(path.last()));
}

/// A path with a `*` behind it is the matcher of every path that starts with it, and of no other.
pub proof fn law_prefix_matches_what_starts_with_it(path: Seq<char>, s: Seq<char>)
    requires
        !path.contains(' ') && !path.contains('*'),
        path.len() > 0 ==> !white_space(path[0]),
    ensures
        route_matches(path.push('*'), s) <==> exists|rest: Seq<char>| s == #[trigger] (path
            + rest),
{
    let item = path.push('*');
    assert forall|j: int| 0 <= j < item.len() implies item[j] != ' ' by {
        if j < path.len() {
            assert(path.contains(path[j]));
        }
    }
    lemma_one_item(item);
    lemma_one_item_matches(item, s);
    assert(item.drop_last() == path);
    law_starts_with(s, path);
}

/// A matcher of one item in which a `*` stands anywhere but at its end accepts nothing.
pub proof fn law_star_elsewhere_matches_nothing(item: Seq<char>, i: int, s: Seq<char>)
    requires
        !item.contains(' '),
        0 <= i < item.len() - 1 && item[i] == '*',
        !white_space(item[0]) && !white_space(item.last()),
    ensures
        !route_matches(item, s),
{
    lemma_one_item(item);
    lemma_one_item_matches(item, s);
    assert(item.contains(item[i]));
    assert(item.drop_last()[i] == '*');
    assert(item.drop_last().contains('*'));
}

/// White space around a matcher makes no difference, and a matcher of white space alone accepts
/// nothing.
pub proof fn law_white_space_around_matcher(
    before: Seq<char>,
    matcher: Seq<char>,
    behind: Seq<char>,
    s: Seq<char>,
)
    requires
        forall|k: int| 0 <= k < before.len() ==> white_space(#[trigger] before[k]),
        forall|k: int| 0 <= k < behind.len() ==> white_space(#[trigger] behind[k]),
        matcher.len() > 0 ==> !white_space(matcher[0]) && !white_space(matcher.last()),
    ensures
        route_matches(before + matcher + behind, s) == route_matches(matcher, s),
        matcher.len() == 0 ==> !route_matches(before + matcher + behind, s),
{
    let none = Seq::<char>::empty();
    law_trim(before, matcher, behind);
    law_trim(none, matcher, none);
    assert(none + matcher + none == matcher);
    if matcher.len() == 0 {
        lemma_nothing_matches_nothing(matcher, s);
    }
}

/// White space around a directive makes no difference. A directive without a space is a name, and
/// its parameter is empty; the first space ends the name, and the parameter is what follows.
pub proof fn law_directive_parts(
    before: Seq<char>,
    name: Seq<char>,
    param: Seq<char>,
    behind: Seq<char>,
)
    requires
        forall|k: int| 0 <= k < before.len() ==> white_space(#[trigger] before[k]),
        forall|k: int| 0 <= k < behind.len() ==> white_space(#[trigger] behind[k]),
        !name.contains(' '),
        name.len() > 0 ==> !white_space(name[0]),
    ensures
        name.len() == 0 || !white_space(name.last()) ==> directive_parts(before + name + behind)
            == (name, Seq::<char>::empty()),
        name.len() > 0 && param.len() > 0 && !white_space(param.last()) ==> directive_parts(
            before + (name.push(' ') + param) + behind,
        ) == (name, param),
{
    if name.len() == 0 || !white_space(name.last()) {
        law_trim(before, name, behind);
        lemma_contains(name, ' ');
    }
    if name.len() > 0 && param.len() > 0 && !white_space(param.last()) {
        let t = name.push(' ') + param;
        assert(t[0] == name[0]);
        assert(t.last() == param.last());
        law_trim(before, t, behind);
        assert forall|j: int| 0 <= j < name.len() implies t[j] != ' ' by {
            assert(name.contains(name[j]));
        }
        lemma_find_unique(t, ' ', name.len());
        assert(t.take(name.len() as int) == name);
        assert(t.skip(name.len() as int + 1) == param);
    }
}

/// Each piece of a text stands between separators or ends, and holds none.
proof fn lemma_piece(t: Seq<char>, sep: char, k: int) -> (r: (int, int))
    requires
        0 <= k < split(t, sep).len(),
    ensures
        0 <= r.0 <= r.1 <= t.len(),
        split(t, sep)[k] == t.subrange(r.0, r.1),
        !t.subrange(r.0, r.1).contains(sep),
        r.0 == 0 || t[r.0 - 1] == sep,
        r.1 == t.len() || t[r.1] == sep,
    decreases t.len(),
{
    lemma_find(t, sep);
    let n = find(t, sep) as int;
    if n == t.len() {
        assert(t.subrange(0, n) == t);
        (0, n)
    } else if k == 0 {
        assert(t.subrange(0, n) == t.take(n));
        (0, n)
    } else {
        let rest = t.skip(n + 1);
        assert(split(t, sep)[k] == split(rest, sep)[k - 1]);
        let (i, j) = lemma_piece(rest, sep, k - 1);
        assert(rest.subrange(i, j) == t.subrange(i + n + 1, j + n + 1));
        if i > 0 {
            assert(rest[i - 1] == t[i + n]);
        }
        if j < rest.len() {
            assert(rest[j] == t[j + n + 1]);
        }
        (i + n + 1, j + n + 1)
    }
}

/// What stands between separators or ends and holds none is a piece.
proof fn lemma_is_piece(t: Seq<char>, sep: char, i: int, j: int) -> (k: int)
    requires
        0 <= i <= j <= t.len(),
        !t.subrange(i, j).contains(sep),
        i == 0 || t[i - 1] == sep,
        j == t.len() || t[j] == sep,
    ensures
        0 <= k < split(t, sep).len(),
        split(t, sep)[k] == t.subrange(i, j),
    decreases t.len(),
{
    lemma_find(t, sep);
    let n = find(t, sep) as int;
    let piece = t.subrange(i, j);
    if i == 0 {
        assert forall|m: int| 0 <= m < j implies t[m] != sep by {
            assert(piece[m] == t[m]);
            assert(piece.contains(piece[m]));
        }
        lemma_find_unique(t, sep, j as nat);
        assert(piece == t.take(j));
        if j == t.len() {
            assert(t.take(j) == t);
        }
        0
    } else {
        assert(n <= i - 1) by {
            if n > i - 1 {
                assert(t[i - 1] != sep);
            }
        }
        let rest = t.skip(n + 1);
        assert(rest.subrange(i - n - 1, j - n - 1) == piece);
        if i - n - 1 > 0 {
            assert(rest[i - n - 2] == t[i - 1]);
        }
        if j < t.len() {
            assert(rest[j - n - 1] == t[j]);
        }
        let k = lemma_is_piece(rest, sep, i - n - 1, j - n - 1);
        assert(split(t, sep)[k + 1] == split(rest, sep)[k]);
        k + 1
    }
}

/// Whether an item accepts a path: it is the path and holds no `*`, or it is a start of the path
/// without a `*` and a `*`.
pub open spec fn accepts(item: Seq<char>, s: Seq<char>) -> bool {
    ||| item.len() > 0 && !item.contains('*') && s == item
    ||| exists|p: Seq<char>, rest: Seq<char>|
        item == #[trigger] p.push('*') && !p.contains('*') && s == #[trigger] (p + rest)
}

proof fn lemma_accepts(item: Seq<char>, s: Seq<char>)
    ensures
        item_matches(item, s) == accepts(item, s),
{
    if item.len() > 0 && item.last() == '*' {
        let p = item.drop_last();
        assert(item == p.push('*'));
        assert(item.contains(item.last()));
        law_starts_with(s, p);
        if accepts(item, s) {
            let (q, rest) = choose|q: Seq<char>, rest: Seq<char>|
                item == #[trigger] q.push('*') && !q.contains('*') && s == #[trigger] (q + rest);
            assert(q.push('*').drop_last() == q);
        }
        if item_matches(item, s) {
            let rest = choose|rest: Seq<char>| s == #[trigger] (p + rest);
            assert(item == p.push('*') && s == p + rest);
        }
    } else if exists|p: Seq<char>, rest: Seq<char>|
        item == #[trigger] p.push('*') && !p.contains('*') && s == #[trigger] (p + rest) {
        let (p, rest) = choose|p: Seq<char>, rest: Seq<char>|
            item == #[trigger] p.push('*') && !p.contains('*') && s == #[trigger] (p + rest);
        assert(p.push('*').last() == '*');
    }
}

/// A matcher accepts a path exactly when, white space around the matcher aside, something in it
/// accepts the path that stands between spaces or its ends and holds no space.
pub proof fn law_matcher(before: Seq<char>, matcher: Seq<char>, behind: Seq<char>, s: Seq<char>)
    requires
        forall|k: int| 0 <= k < before.len() ==> white_space(#[trigger] before[k]),
        forall|k: int| 0 <= k < behind.len() ==> white_space(#[trigger] behind[k]),
        matcher.len() > 0 ==> !white_space(matcher[0]) && !white_space(matcher.last()),
    ensures
        route_matches(before + matcher + behind, s) <==> exists|i: int, j: int|
            {
                &&& 0 <= i <= j <= matcher.len()
                &&& i == 0 || matcher[i - 1] == ' '
                &&& j == matcher.len() || matcher[j] == ' '
                &&& !(#[trigger] matcher.subrange(i, j)).contains(' ')
                &&& accepts(matcher.subrange(i, j), s)
            },
{
    law_trim(before, matcher, behind);
    let items = split(matcher, ' ');
    assert(matcher_items(before + matcher + behind) == items);
    if route_matches(before + matcher + behind, s) {
        let k = choose|k: int| 0 <= k < items.len() && #[trigger] item_matches(items[k], s);
        let (i, j) = lemma_piece(matcher, ' ', k);
        lemma_accepts(items[k], s);
        assert(accepts(matcher.subrange(i, j), s));
    }
    if exists|i: int, j: int|
        {
            &&& 0 <= i <= j <= matcher.len()
            &&& i == 0 || matcher[i - 1] == ' '
            &&& j == matcher.len() || matcher[j] == ' '
            &&& !(#[trigger] matcher.subrange(i, j)).contains(' ')
            &&& accepts(matcher.subrange(i, j), s)
        } {
        let (i, j) = choose|i: int, j: int|
            {
                &&& 0 <= i <= j <= matcher.len()
                &&& i == 0 || matcher[i - 1] == ' '
                &&& j == matcher.len() || matcher[j] == ' '
                &&& !(#[trigger] matcher.subrange(i, j)).contains(' ')
                &&& accepts(matcher.subrange(i, j), s)
            };
        let k = lemma_is_piece(matcher, ' ', i, j);
        lemma_accepts(items[k], s);
        assert(item_matches(items[k], s));
    }
}

} // verus!
